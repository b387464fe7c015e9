//! Ranking of indexed changes by similarity, and how results are shown.
//!
//! Similarity scores are 32-bit floating-point numbers; the library orders
//! them by an integer key computed from their bit pattern (`f32::to_bits`):
//! the sign-magnitude value of the pattern. IEEE-754 orders numbers (not
//! NaN) as their sign-magnitude patterns, with `-0.0` equal to `0.0`, which
//! is how `partial_cmp` compares them.
use std::fmt::Write;
use vstd::prelude::*;

use vstd::arithmetic::div_mod::{lemma_div_is_ordered, lemma_fundamental_div_mod};
use vstd::arithmetic::mul::{lemma_mul_inequality, lemma_mul_strict_inequality};
use vstd::arithmetic::power2::{lemma_pow2_pos, lemma_pow2_strictly_increases, lemma_pow2_unfold, pow2};

use crate::order::{is_stable_order, key_before, lemma_permutation_covers, stable_order};
use crate::text::{decimal, decimal_string, join_all, join_first, joined, views};

verus! {

/// The sign-magnitude value of a 32-bit pattern: the low 31 bits, negated
/// when the top (sign) bit is set.
pub open spec fn sign_magnitude(bits: u32) -> int {
    let magnitude = (bits & 0x7fff_ffff) as int;
    if bits >= 0x8000_0000 {
        -magnitude
    } else {
        magnitude
    }
}

/// The ordering key of a score given by its bit pattern: its sign-magnitude
/// value, so that `-0.0` and `0.0` get the same key.
pub fn score_key(score_bits: u32) -> (key: i32)
    ensures
        key == sign_magnitude(score_bits),
{
    let magnitude = score_bits & 0x7fff_ffff;
    assert(score_bits & 0x7fff_ffff <= 0x7fff_ffff) by (bit_vector);
    if score_bits >= 0x8000_0000 {
        -(magnitude as i32)
    } else {
        magnitude as i32
    }
}

/// The biased exponent field of a 32-bit float whose pattern has the low 31
/// bits `magnitude`.
pub open spec fn f32_exponent_field(magnitude: int) -> int {
    magnitude / 0x80_0000
}

/// The fraction field of a 32-bit float whose pattern has the low 31 bits
/// `magnitude`.
pub open spec fn f32_fraction_field(magnitude: int) -> int {
    magnitude % 0x80_0000
}

/// The absolute value of the 32-bit float with low 31 bits `magnitude`,
/// times 2^149, so that every finite value is an integer: a subnormal is
/// its fraction, a normal number is `(2^23 + fraction) * 2^(exponent - 1)`.
/// The infinity pattern (exponent 255, fraction 0) is given
/// `2^23 * 2^254`, above every finite value, which is where it orders.
pub open spec fn f32_scaled_magnitude(magnitude: int) -> int {
    let e = f32_exponent_field(magnitude);
    let f = f32_fraction_field(magnitude);
    if e == 0 {
        f
    } else {
        (0x80_0000 + f) * pow2((e - 1) as nat)
    }
}

/// The value (times 2^149) of the 32-bit float whose bit pattern is `bits`.
pub open spec fn f32_scaled_value(bits: u32) -> int {
    let v = f32_scaled_magnitude((bits as int) % 0x8000_0000);
    if bits >= 0x8000_0000 {
        -v
    } else {
        v
    }
}

/// The pattern `bits` is a NaN: exponent all ones, fraction not zero.
pub open spec fn f32_is_nan(bits: u32) -> bool {
    let m = (bits as int) % 0x8000_0000;
    f32_exponent_field(m) == 255 && f32_fraction_field(m) != 0
}

/// A larger magnitude pattern is a larger absolute value.
proof fn lemma_scaled_magnitude_increases(x: int, y: int)
    requires
        0 <= x < y,
    ensures
        0 <= f32_scaled_magnitude(x) < f32_scaled_magnitude(y),
{
    let d: int = 0x80_0000;
    let e1 = f32_exponent_field(x);
    let e2 = f32_exponent_field(y);
    let f1 = f32_fraction_field(x);
    let f2 = f32_fraction_field(y);
    lemma_fundamental_div_mod(x, d);
    lemma_fundamental_div_mod(y, d);
    lemma_div_is_ordered(x, y, d);
    assert(0 <= f1 < d && 0 <= f2 < d);
    assert(0 <= e1 <= e2);
    if e1 > 0 {
        lemma_pow2_pos((e1 - 1) as nat);
    }
    if e2 > 0 {
        lemma_pow2_pos((e2 - 1) as nat);
    }
    if e1 == e2 {
        assert(f1 < f2) by (nonlinear_arith)
            requires
                x == d * e1 + f1,
                y == d * e2 + f2,
                e1 == e2,
                x < y,
        ;
        if e1 > 0 {
            lemma_mul_strict_inequality(d + f1, d + f2, pow2((e1 - 1) as nat) as int);
            lemma_mul_inequality(0, d + f1, pow2((e1 - 1) as nat) as int);
        }
    } else {
        // every value with the smaller exponent is below 2^23 * 2^e1,
        // every value with the larger one at least 2^23 * 2^(e2 - 1)
        let p2 = pow2((e2 - 1) as nat) as int;
        lemma_mul_inequality(d, d + f2, p2);
        if e1 == 0 {
            lemma_pow2_pos((e2 - 1) as nat);
            lemma_mul_inequality(1, p2, d);
            assert(f1 < d * p2) by (nonlinear_arith)
                requires
                    f1 < d,
                    d <= p2 * d,
            ;
        } else {
            let p1 = pow2((e1 - 1) as nat) as int;
            lemma_pow2_unfold(e1 as nat);
            if e1 < e2 - 1 {
                lemma_pow2_strictly_increases(e1 as nat, (e2 - 1) as nat);
            }
            assert(pow2(e1 as nat) <= p2);
            lemma_mul_strict_inequality(d + f1, 2 * d, p1);
            lemma_mul_inequality(0, d + f1, p1);
            assert((2 * d) * p1 == d * (2 * p1)) by (nonlinear_arith);
            lemma_mul_inequality(2 * p1, p2, d);
            assert(d * p2 == p2 * d) by (nonlinear_arith);
            assert(d * (2 * p1) == (2 * p1) * d) by (nonlinear_arith);
        }
    }
}

/// Score keys order as the scores do: for two scores that are not NaN, one
/// key is below another exactly when its score is below the other's, and
/// two keys are equal exactly when the scores are (so `-0.0` and `0.0` share
/// a key). Ranking by key is thus ranking by score.
pub proof fn lemma_score_key_orders_as_score(a: u32, b: u32)
    requires
        !f32_is_nan(a),
        !f32_is_nan(b),
    ensures
        (sign_magnitude(a) < sign_magnitude(b)) == (f32_scaled_value(a) < f32_scaled_value(b)),
        (sign_magnitude(a) == sign_magnitude(b)) == (f32_scaled_value(a) == f32_scaled_value(b)),
{
    assert(a & 0x7fff_ffff == a % 0x8000_0000) by (bit_vector);
    assert(b & 0x7fff_ffff == b % 0x8000_0000) by (bit_vector);
    let ma = (a as int) % 0x8000_0000;
    let mb = (b as int) % 0x8000_0000;
    assert(f32_scaled_magnitude(0) == 0);
    if ma > 0 {
        lemma_scaled_magnitude_increases(0, ma);
    }
    if mb > 0 {
        lemma_scaled_magnitude_increases(0, mb);
    }
    if ma < mb {
        lemma_scaled_magnitude_increases(ma, mb);
    } else if mb < ma {
        lemma_scaled_magnitude_increases(mb, ma);
    }
}

/// The keys under which descending score keys sort ascending.
pub open spec fn descending_keys(score_keys: Seq<i32>) -> Seq<i64> {
    score_keys.map_values(|k: i32| -(k as int) as i64)
}

/// `ranked` lists the positions of the best `top_n` scores, best first;
/// equal scores keep the order they came in.
pub open spec fn is_ranking(score_keys: Seq<i32>, top_n: nat, ranked: Seq<usize>) -> bool {
    exists|order: Seq<usize>|
        {
            &&& #[trigger] is_stable_order(descending_keys(score_keys), order)
            &&& ranked == order.take(
                if top_n < order.len() {
                    top_n as int
                } else {
                    order.len() as int
                },
            )
        }
}

/// The positions of the `top_n` best scores, by descending score key, equal
/// keys in the order they came in (a stable sort by descending score, then the
/// first `top_n`).
pub fn rank_order(score_keys: &Vec<i32>, top_n: usize) -> (ranked: Vec<usize>)
    ensures
        is_ranking(score_keys@, top_n as nat, ranked@),
{
    let mut keys: Vec<i64> = Vec::new();
    let mut i: usize = 0;
    while i < score_keys.len()
        invariant
            i <= score_keys.len(),
            keys@ =~= descending_keys(score_keys@).take(i as int),
        decreases score_keys.len() - i,
    {
        let k = score_keys[i];
        keys.push(-(k as i64));
        i = i + 1;
    }
    assert(keys@ =~= descending_keys(score_keys@));
    let order = stable_order(&keys);
    let count = if top_n < order.len() {
        top_n
    } else {
        order.len()
    };
    let mut ranked: Vec<usize> = Vec::new();
    let mut j: usize = 0;
    while j < count
        invariant
            count <= order.len(),
            j <= count,
            ranked@ =~= order@.take(j as int),
        decreases count - j,
    {
        ranked.push(order[j]);
        j = j + 1;
    }
    assert(is_stable_order(descending_keys(score_keys@), order@));
    ranked
}

/// A ranking returns `min(top_n, n)` distinct candidates, best score first
/// (equal scores in the order they came in), and no candidate left out scores
/// better than one returned.
pub proof fn lemma_ranking_shape(score_keys: Seq<i32>, top_n: nat, ranked: Seq<usize>)
    requires
        is_ranking(score_keys, top_n, ranked),
    ensures
        ranked.len() == if top_n < score_keys.len() {
            top_n
        } else {
            score_keys.len()
        },
        forall|i: int| 0 <= i < ranked.len() ==> (#[trigger] ranked[i]) < score_keys.len(),
        forall|i: int, j: int|
            0 <= i < j < ranked.len() ==> #[trigger] ranked[i] != #[trigger] ranked[j],
        forall|i: int, j: int|
            0 <= i < j < ranked.len() ==> score_keys[#[trigger] ranked[i] as int]
                >= score_keys[#[trigger] ranked[j] as int],
        forall|x: usize, i: int|
            #![trigger ranked.contains(x), ranked[i]]
            x < score_keys.len() && !ranked.contains(x) && 0 <= i < ranked.len() ==> score_keys[x as int]
                <= score_keys[ranked[i] as int],
{
    let keys = descending_keys(score_keys);
    let order = choose|order: Seq<usize>|
        {
            &&& #[trigger] is_stable_order(descending_keys(score_keys), order)
            &&& ranked == order.take(
                if top_n < order.len() {
                    top_n as int
                } else {
                    order.len() as int
                },
            )
        };
    assert forall|i: int, j: int| 0 <= i < j < ranked.len() implies score_keys[#[trigger] ranked[i] as int]
        >= score_keys[#[trigger] ranked[j] as int] by {
        assert(ranked[i] == order[i] && ranked[j] == order[j]);
        assert(key_before(keys, order[i], order[j]));
        assert(keys[order[i] as int] == -(score_keys[order[i] as int] as int));
        assert(keys[order[j] as int] == -(score_keys[order[j] as int] as int));
    }
    assert forall|x: usize, i: int|
        #![trigger ranked.contains(x), ranked[i]]
        x < score_keys.len() && !ranked.contains(x) && 0 <= i < ranked.len() implies score_keys[x as int]
        <= score_keys[ranked[i] as int] by {
        lemma_permutation_covers(order, keys.len(), x);
        let k = choose|k: int| 0 <= k < order.len() && order[k] == x;
        if k < ranked.len() {
            assert(ranked[k] == x);
        }
        assert(ranked[i] == order[i]);
        assert(key_before(keys, order[i], order[k]));
        assert(keys[x as int] == -(score_keys[x as int] as int));
        assert(keys[order[i] as int] == -(score_keys[order[i] as int] as int));
    }
    assert forall|i: int| 0 <= i < ranked.len() implies (#[trigger] ranked[i]) < score_keys.len() by {
        assert(ranked[i] == order[i]);
    }
    assert forall|i: int, j: int| 0 <= i < j < ranked.len() implies #[trigger] ranked[i]
        != #[trigger] ranked[j] by {
        assert(ranked[i] == order[i] && ranked[j] == order[j]);
    }
}

/// The text of a UTC time given in seconds since the Unix epoch, formatted
/// with a `chrono` strftime pattern; nothing when the time is out of range
/// or the pattern cannot be formatted.
pub uninterp spec fn utc_time_text(timestamp: i64, pattern: Seq<char>) -> Option<Seq<char>>;

/// Formats a UTC time with `chrono::DateTime::from_timestamp` and
/// `DateTime::format`; the text is the function of the time and the pattern
/// named `utc_time_text`.
#[verifier::external_body]
fn format_utc_time(timestamp: i64, pattern: &str) -> (r: Option<String>)
    ensures
        match r {
            Some(t) => utc_time_text(timestamp, pattern@) == Some(t@),
            None => utc_time_text(timestamp, pattern@) is None,
        },
{
    let time = chrono::DateTime::from_timestamp(timestamp, 0)?;
    let mut text = String::new();
    write!(text, "{}", time.format(pattern)).ok()?;
    Some(text)
}

/// The date pattern of a search result: year, month, day, hours and minutes.
pub const RESULT_DATE_PATTERN: &'static str = "%Y-%m-%d %H:%M";

/// What a search result shows when its time cannot be written as a date.
pub const UNKNOWN_DATE: &'static str = "unknown";

/// The date line of a search result: the UTC time of the change to the
/// minute, or `unknown` when it is out of range.
pub fn result_date(timestamp: i64) -> (text: String)
    ensures
        text@ == match utc_time_text(timestamp, RESULT_DATE_PATTERN@) {
            Some(t) => t,
            None => UNKNOWN_DATE@,
        },
{
    match format_utc_time(timestamp, RESULT_DATE_PATTERN) {
        Some(t) => t,
        None => UNKNOWN_DATE.to_owned(),
    }
}

/// At most this many files are named in a search result.
pub const FILES_PREVIEWED: usize = 3;

/// The files line of a search result: up to three files, then how many more.
pub open spec fn files_preview_text(files: Seq<Seq<char>>) -> Seq<char> {
    if files.len() > FILES_PREVIEWED {
        joined(files.take(FILES_PREVIEWED as int), ", "@) + " and "@ + decimal(
            (files.len() - FILES_PREVIEWED) as nat,
        ) + " more"@
    } else {
        joined(files, ", "@)
    }
}

/// A search result names every file when there are at most three, separated
/// by commas; beyond that, the first three and how many more there are.
pub proof fn lemma_files_preview_names_files(files: Seq<Seq<char>>)
    ensures
        files.len() <= 3 ==> files_preview_text(files) == joined(files, ", "@),
        files.len() > 3 ==> files_preview_text(files) == joined(files.take(3), ", "@) + " and "@
            + decimal((files.len() - 3) as nat) + " more"@,
{
}

/// The files line of a search result.
pub fn files_preview(files: &Vec<String>) -> (text: String)
    ensures
        text@ == files_preview_text(views(files@)),
{
    let n = files.len();
    if n > FILES_PREVIEWED {
        let mut text = join_first(files, FILES_PREVIEWED, ", ");
        text.append(" and ");
        let extra = decimal_string(n - FILES_PREVIEWED);
        text.append(extra.as_str());
        text.append(" more");
        text
    } else {
        join_all(files, ", ")
    }
}

/// Who wrote a change, as a search result shows it: the model and vendor of
/// an AI-authored change, else the authors.
pub open spec fn author_info_text(
    model: Option<Seq<char>>,
    vendor: Option<Seq<char>>,
    authors: Seq<Seq<char>>,
) -> Seq<char> {
    match (model, vendor) {
        (Some(m), Some(v)) => m + " ("@ + v + ")"@,
        _ => joined(authors, ", "@),
    }
}

/// A search result names the model of an AI-authored change first and its
/// vendor in parentheses; a change without both names its authors,
/// separated by commas.
pub proof fn lemma_author_info_names_model_then_vendor(
    model: Option<Seq<char>>,
    vendor: Option<Seq<char>>,
    authors: Seq<Seq<char>>,
)
    ensures
        (model is Some && vendor is Some) ==> author_info_text(model, vendor, authors)
            == model->Some_0 + " ("@ + vendor->Some_0 + ")"@,
        !(model is Some && vendor is Some) ==> author_info_text(model, vendor, authors) == joined(
            authors,
            ", "@,
        ),
{
}

/// Who wrote a change, as a search result shows it.
pub fn author_info(model: &Option<String>, vendor: &Option<String>, authors: &Vec<String>) -> (text:
    String)
    ensures
        text@ == author_info_text(
            match model {
                Some(m) => Some(m@),
                None => None,
            },
            match vendor {
                Some(v) => Some(v@),
                None => None,
            },
            views(authors@),
        ),
{
    match (model, vendor) {
        (Some(m), Some(v)) => {
            let mut text = m.clone();
            text.append(" (");
            text.append(v.as_str());
            text.append(")");
            text
        },
        _ => join_all(authors, ", "),
    }
}

} // verus!
