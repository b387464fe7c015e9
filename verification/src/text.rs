//! Text helpers: decimal numbers, joining, and prefixes of strings.
use vstd::prelude::*;

verus! {

/// The character for a decimal digit below ten.
pub open spec fn digit_char(d: nat) -> char {
    ('0' as nat + d) as char
}

/// The decimal representation of `n`, without sign or leading zeros
/// (what `to_string` gives for an unsigned integer).
pub open spec fn decimal(n: nat) -> Seq<char>
    decreases n,
{
    if n < 10 {
        seq![digit_char(n)]
    } else {
        decimal(n / 10).push(digit_char(n % 10))
    }
}

/// A one-character string for the digit `d`.
fn digit_str(d: usize) -> (s: &'static str)
    requires
        d < 10,
    ensures
        s@ == seq![digit_char(d as nat)],
{
    proof {
        reveal_strlit("0");
        reveal_strlit("1");
        reveal_strlit("2");
        reveal_strlit("3");
        reveal_strlit("4");
        reveal_strlit("5");
        reveal_strlit("6");
        reveal_strlit("7");
        reveal_strlit("8");
        reveal_strlit("9");
    }
    match d {
        0 => "0",
        1 => "1",
        2 => "2",
        3 => "3",
        4 => "4",
        5 => "5",
        6 => "6",
        7 => "7",
        8 => "8",
        _ => "9",
    }
}

/// Appends the decimal representation of `n` to `out`.
fn append_decimal(out: &mut String, n: usize)
    ensures
        final(out)@ == old(out)@ + decimal(n as nat),
    decreases n,
{
    if n < 10 {
        out.append(digit_str(n));
    } else {
        append_decimal(out, n / 10);
        out.append(digit_str(n % 10));
    }
}

/// The decimal representation of `n`, as `n.to_string()` writes it.
pub fn decimal_string(n: usize) -> (s: String)
    ensures
        s@ == decimal(n as nat),
{
    let mut s = String::new();
    append_decimal(&mut s, n);
    proof {
        assert(Seq::<char>::empty() + decimal(n as nat) == decimal(n as nat));
    }
    s
}

/// Every character of `s` is an ASCII decimal digit.
pub open spec fn all_digits(s: Seq<char>) -> bool {
    forall|i: int| 0 <= i < s.len() ==> '0' <= #[trigger] s[i] <= '9'
}

/// The value of a string of decimal digits.
pub open spec fn digits_value(s: Seq<char>) -> nat
    decreases s.len(),
{
    if s.len() == 0 {
        0
    } else {
        digits_value(s.drop_last()) * 10 + ((s.last() as nat) - ('0' as nat)) as nat
    }
}

/// The digits of an unsigned number: the text after an optional leading `+`.
pub open spec fn unsigned_digits(s: Seq<char>) -> Seq<char> {
    if s.len() > 0 && s[0] == '+' {
        s.drop_first()
    } else {
        s
    }
}

/// What `s.parse::<usize>().ok()` gives: an optional `+` followed by at least
/// one decimal digit and nothing else, with a value that fits in `usize`.
pub open spec fn parsed_usize(s: Seq<char>) -> Option<nat> {
    let d = unsigned_digits(s);
    if d.len() > 0 && all_digits(d) && digits_value(d) <= usize::MAX {
        Some(digits_value(d))
    } else {
        None
    }
}

/// A longer digit string is worth at least as much as its prefix.
proof fn lemma_digits_value_prefix(s: Seq<char>, k: int)
    requires
        0 <= k <= s.len(),
        all_digits(s),
    ensures
        digits_value(s.take(k)) <= digits_value(s),
    decreases s.len(),
{
    if k < s.len() {
        assert(s.drop_last().take(k) =~= s.take(k));
        lemma_digits_value_prefix(s.drop_last(), k);
    } else {
        assert(s.take(k) =~= s);
    }
}

/// Reads an unsigned decimal number as `s.parse::<usize>().ok()` does.
pub fn parse_usize(s: &str) -> (r: Option<usize>)
    ensures
        r matches Some(v) ==> parsed_usize(s@) == Some(v as nat),
        r is None ==> parsed_usize(s@) is None,
{
    let len = s.unicode_len();
    let mut start: usize = 0;
    if len > 0 && s.get_char(0) == '+' {
        start = 1;
    }
    let ghost d = unsigned_digits(s@);
    assert(d =~= s@.subrange(start as int, len as int));
    if start >= len {
        return None;
    }
    let mut value: usize = 0;
    let mut i: usize = start;
    while i < len
        invariant
            start <= i <= len,
            len == s@.len(),
            d == s@.subrange(start as int, len as int),
            d == unsigned_digits(s@),
            all_digits(d.take(i - start)),
            value as nat == digits_value(d.take(i - start)),
        decreases len - i,
    {
        let c = s.get_char(i);
        if c < '0' || c > '9' {
            assert(d[i - start] == c);
            assert(!all_digits(d));
            return None;
        }
        let digit = (c as u32 - '0' as u32) as usize;
        assert(d.take(i - start + 1).drop_last() =~= d.take(i - start));
        assert(d.take(i - start + 1).last() == c);
        assert(all_digits(d.take(i - start + 1)));
        assert(digits_value(d.take(i - start + 1)) == value * 10 + digit);
        let grown = match value.checked_mul(10) {
            Some(t) => t.checked_add(digit),
            None => None,
        };
        match grown {
            Some(v) => {
                value = v;
            },
            None => {
                proof {
                    if all_digits(d) {
                        lemma_digits_value_prefix(d, i - start + 1);
                    }
                }
                return None;
            },
        }
        i = i + 1;
    }
    assert(d.take(i - start) =~= d);
    Some(value)
}

/// The views of a sequence of strings.
pub open spec fn views(items: Seq<String>) -> Seq<Seq<char>> {
    items.map_values(|s: String| s@)
}

/// `items` joined with `sep` between neighbours, as `[String]::join` does.
pub open spec fn joined(items: Seq<Seq<char>>, sep: Seq<char>) -> Seq<char>
    decreases items.len(),
{
    if items.len() == 0 {
        seq![]
    } else if items.len() == 1 {
        items[0]
    } else {
        joined(items.drop_last(), sep) + sep + items.last()
    }
}

/// The first `count` strings of `items` joined with `sep`.
pub fn join_first(items: &Vec<String>, count: usize, sep: &str) -> (r: String)
    requires
        count <= items.len(),
    ensures
        r@ == joined(views(items@).take(count as int), sep@),
{
    let mut r = String::new();
    let ghost all = views(items@);
    let mut i: usize = 0;
    while i < count
        invariant
            i <= count <= items.len(),
            all == views(items@),
            r@ == joined(all.take(i as int), sep@),
        decreases count - i,
    {
        assert(all.take(i + 1).drop_last() =~= all.take(i as int));
        if i > 0 {
            r.append(sep);
        }
        r.append(items[i].as_str());
        proof {
            if i == 0 {
                assert(r@ =~= joined(all.take(1), sep@));
            }
        }
        i = i + 1;
    }
    r
}

/// All of `items` joined with `sep`.
pub fn join_all(items: &Vec<String>, sep: &str) -> (r: String)
    ensures
        r@ == joined(views(items@), sep@),
{
    let r = join_first(items, items.len(), sep);
    assert(views(items@).take(items.len() as int) =~= views(items@));
    r
}

/// At most the first `max_chars` characters of `s`.
pub open spec fn char_prefix(s: Seq<char>, max_chars: nat) -> Seq<char> {
    if s.len() > max_chars {
        s.take(max_chars as int)
    } else {
        s
    }
}

/// The first `max_chars` characters of `s` (counted as Unicode scalar
/// values), or all of `s` when it is that short.
pub fn truncate_to_chars(s: &str, max_chars: usize) -> (r: String)
    ensures
        r@ == char_prefix(s@, max_chars as nat),
{
    let n = s.unicode_len();
    if n > max_chars {
        s.substring_char(0, max_chars).to_owned()
    } else {
        s.to_owned()
    }
}


/// Truncation keeps the start of the text: the result is a prefix of `s`
/// of `max_chars` characters, or all of `s` when it is no longer than that.
pub proof fn lemma_char_prefix_is_short_prefix(s: Seq<char>, max_chars: nat)
    ensures
        char_prefix(s, max_chars).is_prefix_of(s),
        char_prefix(s, max_chars).len() == if s.len() < max_chars {
            s.len()
        } else {
            max_chars
        },
{
    assert(s.subrange(0, s.len() as int) =~= s);
}

/// Whether `s` begins with `prefix`, as `str::starts_with` with a string
/// pattern.
pub fn has_prefix(s: &str, prefix: &str) -> (r: bool)
    ensures
        r == prefix@.is_prefix_of(s@),
{
    let n = s.unicode_len();
    let m = prefix.unicode_len();
    if m > n {
        return false;
    }
    let mut i: usize = 0;
    while i < m
        invariant
            m <= n,
            n == s@.len(),
            m == prefix@.len(),
            i <= m,
            forall|j: int| 0 <= j < i ==> prefix@[j] == s@[j],
        decreases m - i,
    {
        if s.get_char(i) != prefix.get_char(i) {
            return false;
        }
        i = i + 1;
    }
    assert(prefix@ =~= s@.take(m as int));
    true
}


/// The decimal representation of `n` is a non-empty string of digits worth `n`.
proof fn lemma_decimal_digits(n: nat)
    ensures
        decimal(n).len() > 0,
        all_digits(decimal(n)),
        digits_value(decimal(n)) == n,
        decimal(n)[0] != '+',
    decreases n,
{
    if n < 10 {
        let d = decimal(n);
        assert(d.drop_last() =~= Seq::<char>::empty());
        assert(digit_char(n) as nat == '0' as nat + n);
        assert(d.last() == digit_char(n));
        assert(digits_value(d) == digits_value(d.drop_last()) * 10 + n);
    } else {
        lemma_decimal_digits(n / 10);
        let d = decimal(n);
        assert(d.drop_last() =~= decimal(n / 10));
        assert(digit_char(n % 10) as nat == '0' as nat + n % 10);
        assert(d[0] == decimal(n / 10)[0]);
        assert(d.last() == digit_char(n % 10));
        assert(digits_value(d) == digits_value(decimal(n / 10)) * 10 + n % 10);
        assert((n / 10) * 10 + n % 10 == n) by (nonlinear_arith);
        assert forall|i: int| 0 <= i < d.len() implies '0' <= #[trigger] d[i] <= '9' by {
            if i < d.len() - 1 {
                assert(d[i] == decimal(n / 10)[i]);
            }
        }
    }
}

/// Reading back the decimal representation of a `usize` gives the number:
/// `n.to_string().parse::<usize>()` is `Ok(n)`.
pub proof fn lemma_decimal_parses_back(n: usize)
    ensures
        parsed_usize(decimal(n as nat)) == Some(n as nat),
{
    lemma_decimal_digits(n as nat);
}

} // verus!
