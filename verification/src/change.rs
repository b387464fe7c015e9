//! Change records and the text document that is embedded for each of them.
use vstd::prelude::*;
use vstd::string::StringSliceAdditionalSpecFns;
use vstd::utf8::{
    decode_utf8, decode_utf8_encode_utf8, decode_utf8_split, encode_utf8, encode_utf8_decode_utf8,
    encode_utf8_valid_utf8, is_char_boundary, valid_utf8_split,
};

use crate::order::{
    is_index_permutation, is_stable_order, is_stably_sorted, key_before, lemma_insert_position,
    lemma_permutation_covers,
};
use crate::text::{decimal, decimal_string, has_prefix, join_all, join_first, joined, views};

verus! {

/// A change record with all embeddable fields extracted.
#[derive(Debug)]
pub struct ChangeRecord {
    pub hash: String,
    pub message: String,
    pub description: Option<String>,
    pub timestamp: i64,
    pub authors: Vec<String>,
    pub files: Vec<String>,
    /// Provenance: `None` for human-authored changes.
    pub ai_vendor: Option<String>,
    pub ai_model: Option<String>,
    pub ai_tool: Option<String>,
    pub prompt_text: Option<String>,
    pub reasoning: Option<String>,
    pub task_plan: Option<String>,
    pub tokens_in: Option<i64>,
    pub tokens_out: Option<i64>,
    /// The cost in US dollars, as the SQL value that is stored for it.
    pub cost_usd: Option<rusqlite::types::Value>,
    pub session_id: Option<String>,
}

/// At most this many bytes of the reasoning go into the document.
pub const REASONING_BYTE_LIMIT: usize = 2000;

/// At most this many file paths are listed in the document.
pub const FILES_SHOWN: usize = 20;

/// The view of an optional string.
pub open spec fn opt_view(v: Option<String>) -> Option<Seq<char>> {
    match v {
        Some(s) => Some(s@),
        None => None,
    }
}

/// A section headed by `heading` when the field is present, else nothing.
pub open spec fn optional_section(heading: Seq<char>, field: Option<Seq<char>>) -> Seq<char> {
    match field {
        Some(body) => heading + body + "\n"@,
        None => seq![],
    }
}

/// The reasoning as it enters the document: its first 2000 bytes of UTF-8
/// when it is longer than that, else all of it.
pub open spec fn reasoning_excerpt(reasoning: Seq<char>) -> Seq<char> {
    let bytes = encode_utf8(reasoning);
    if bytes.len() > REASONING_BYTE_LIMIT {
        decode_utf8(bytes.subrange(0, REASONING_BYTE_LIMIT as int))
    } else {
        reasoning
    }
}

/// The reasoning can be cut at its 2000th byte: it is no longer than that,
/// or a character starts there.
pub open spec fn reasoning_cuttable(reasoning: Seq<char>) -> bool {
    let bytes = encode_utf8(reasoning);
    bytes.len() > REASONING_BYTE_LIMIT ==> is_char_boundary(bytes, REASONING_BYTE_LIMIT as int)
}

/// The list of files: the first 20 one per line, then how many more there are.
pub open spec fn files_listing(files: Seq<Seq<char>>) -> Seq<char> {
    if files.len() > FILES_SHOWN {
        joined(files.take(FILES_SHOWN as int), "\n"@) + "\n... and "@ + decimal(
            (files.len() - FILES_SHOWN) as nat,
        ) + " more files"@
    } else {
        joined(files, "\n"@)
    }
}

/// The files section: present when there is at least one file.
pub open spec fn files_section(files: Seq<Seq<char>>) -> Seq<char> {
    if files.len() == 0 {
        seq![]
    } else {
        "\n[files]\n"@ + files_listing(files) + "\n"@
    }
}

/// The author section: the model, tool and vendor of an AI-authored change,
/// else the human authors, else nothing.
pub open spec fn author_section(
    model: Option<Seq<char>>,
    vendor: Option<Seq<char>>,
    tool: Option<Seq<char>>,
    authors: Seq<Seq<char>>,
) -> Seq<char> {
    match (model, vendor) {
        (Some(m), Some(v)) => "\n[author]\n"@ + m + " via "@ + (match tool {
            Some(t) => t,
            None => "unknown"@,
        }) + " ("@ + v + ")\n"@,
        _ => if authors.len() > 0 {
            "\n[author]\n"@ + joined(authors, ", "@) + "\n"@
        } else {
            seq![]
        },
    }
}

impl ChangeRecord {
    /// The reasoning of this record can be cut where the document cuts it.
    pub open spec fn well_cut(&self) -> bool {
        match self.reasoning {
            Some(r) => reasoning_cuttable(r@),
            None => true,
        }
    }

    /// The document that is embedded for this record, sections in order of
    /// semantic signal strength.
    pub open spec fn document(&self) -> Seq<char> {
        "[message]\n"@ + self.message@ + "\n"@
            + optional_section("\n[description]\n"@, opt_view(self.description))
            + optional_section("\n[prompt]\n"@, opt_view(self.prompt_text))
            + optional_section(
            "\n[reasoning]\n"@,
            match self.reasoning {
                Some(r) => Some(reasoning_excerpt(r@)),
                None => None,
            },
        ) + optional_section("\n[task_plan]\n"@, opt_view(self.task_plan))
            + files_section(views(self.files@)) + author_section(
            opt_view(self.ai_model),
            opt_view(self.ai_vendor),
            opt_view(self.ai_tool),
            views(self.authors@),
        )
    }

    /// Builds the text document that will be embedded. Fields are ordered by
    /// semantic signal strength; the reasoning is cut to 2000 bytes and the
    /// file list to 20 entries.
    pub fn embedding_document(&self) -> (doc: String)
        requires
            self.well_cut(),
        ensures
            doc@ == self.document(),
    {
        let mut doc = String::new();
        doc.append("[message]\n");
        doc.append(self.message.as_str());
        doc.append("\n");
        append_optional_section(&mut doc, "\n[description]\n", &self.description);
        append_optional_section(&mut doc, "\n[prompt]\n", &self.prompt_text);
        match &self.reasoning {
            Some(reasoning) => {
                doc.append("\n[reasoning]\n");
                append_reasoning_excerpt(&mut doc, reasoning);
                doc.append("\n");
            },
            None => {},
        }
        append_optional_section(&mut doc, "\n[task_plan]\n", &self.task_plan);
        append_files_section(&mut doc, &self.files);
        append_author_section(&mut doc, self);
        proof {
            assert(doc@ =~= self.document());
        }
        doc
    }
}

/// Appends `heading`, the field and a newline when the field is present.
fn append_optional_section(doc: &mut String, heading: &str, field: &Option<String>)
    ensures
        final(doc)@ == old(doc)@ + optional_section(heading@, opt_view(*field)),
{
    match field {
        Some(body) => {
            doc.append(heading);
            doc.append(body.as_str());
            doc.append("\n");
            proof {
                assert(final(doc)@ =~= old(doc)@ + optional_section(heading@, opt_view(*field)));
            }
        },
        None => {
            assert(old(doc)@ + optional_section(heading@, opt_view(*field)) =~= old(doc)@);
        },
    }
}

/// Appends the part of the reasoning that enters the document.
fn append_reasoning_excerpt(doc: &mut String, reasoning: &String)
    requires
        reasoning_cuttable(reasoning@),
    ensures
        final(doc)@ == old(doc)@ + reasoning_excerpt(reasoning@),
{
    let text = reasoning.as_str();
    if text.as_bytes().len() > REASONING_BYTE_LIMIT {
        let (head, _tail) = text.split_at(REASONING_BYTE_LIMIT);
        proof {
            assert(text.spec_bytes() == encode_utf8(reasoning@));
            assert(encode_utf8(head@) == encode_utf8(reasoning@).subrange(
                0,
                REASONING_BYTE_LIMIT as int,
            ));
            encode_utf8_decode_utf8(head@);
        }
        doc.append(head);
    } else {
        doc.append(text);
    }
}

/// Appends the files section.
fn append_files_section(doc: &mut String, files: &Vec<String>)
    ensures
        final(doc)@ == old(doc)@ + files_section(views(files@)),
{
    let n = files.len();
    if n == 0 {
        assert(old(doc)@ + files_section(views(files@)) =~= old(doc)@);
        return;
    }
    let mut listing = if n > FILES_SHOWN {
        join_first(files, FILES_SHOWN, "\n")
    } else {
        join_all(files, "\n")
    };
    if n > FILES_SHOWN {
        listing.append("\n... and ");
        let extra = decimal_string(n - FILES_SHOWN);
        listing.append(extra.as_str());
        listing.append(" more files");
    }
    assert(listing@ =~= files_listing(views(files@)));
    doc.append("\n[files]\n");
    doc.append(listing.as_str());
    doc.append("\n");
    assert(final(doc)@ =~= old(doc)@ + files_section(views(files@)));
}

/// Appends the author section.
fn append_author_section(doc: &mut String, record: &ChangeRecord)
    ensures
        final(doc)@ == old(doc)@ + author_section(
            opt_view(record.ai_model),
            opt_view(record.ai_vendor),
            opt_view(record.ai_tool),
            views(record.authors@),
        ),
{
    let ghost expected = author_section(
        opt_view(record.ai_model),
        opt_view(record.ai_vendor),
        opt_view(record.ai_tool),
        views(record.authors@),
    );
    match (&record.ai_model, &record.ai_vendor) {
        (Some(model), Some(vendor)) => {
            let tool = match &record.ai_tool {
                Some(t) => t.as_str(),
                None => "unknown",
            };
            doc.append("\n[author]\n");
            doc.append(model.as_str());
            doc.append(" via ");
            doc.append(tool);
            doc.append(" (");
            doc.append(vendor.as_str());
            doc.append(")\n");
            assert(final(doc)@ =~= old(doc)@ + expected);
        },
        _ => {
            if record.authors.len() > 0 {
                let names = join_all(&record.authors, ", ");
                doc.append("\n[author]\n");
                doc.append(names.as_str());
                doc.append("\n");
                assert(final(doc)@ =~= old(doc)@ + expected);
            } else {
                assert(old(doc)@ + expected =~= old(doc)@);
            }
        },
    }
}

/// `doc1` and `doc2` are the same text around one part, which is `part1` in
/// the first and `part2` in the second.
pub open spec fn differ_only_in(doc1: Seq<char>, doc2: Seq<char>, part1: Seq<char>, part2: Seq<char>) -> bool {
    exists|before: Seq<char>, after: Seq<char>|
        #[trigger] (before + part1 + after) == doc1 && before + part2 + after == doc2
}

proof fn lemma_regroup5(x: Seq<char>, p: Seq<char>, q: Seq<char>, r: Seq<char>, s: Seq<char>, t: Seq<char>)
    ensures
        x + p + q + r + s + t == x + (p + q + r + s + t),
{
    assert(x + p + q + r + s + t =~= x + (p + q + r + s + t));
}

proof fn lemma_regroup4(x: Seq<char>, q: Seq<char>, r: Seq<char>, s: Seq<char>, t: Seq<char>)
    ensures
        x + q + r + s + t == x + (q + r + s + t),
{
    assert(x + q + r + s + t =~= x + (q + r + s + t));
}

proof fn lemma_regroup3(x: Seq<char>, r: Seq<char>, s: Seq<char>, t: Seq<char>)
    ensures
        x + r + s + t == x + (r + s + t),
{
    assert(x + r + s + t =~= x + (r + s + t));
}

proof fn lemma_regroup2(x: Seq<char>, s: Seq<char>, t: Seq<char>)
    ensures
        x + s + t == x + (s + t),
{
    assert(x + s + t =~= x + (s + t));
}

proof fn lemma_prefix_of_concat(x: Seq<char>, y: Seq<char>)
    ensures
        x.is_prefix_of(x + y),
{
    assert((x + y).subrange(0, x.len() as int) =~= x);
}

/// The parts of a record's document, in order.
spec fn document_parts(record: ChangeRecord) -> (Seq<char>, Seq<char>, Seq<char>, Seq<char>, Seq<char>, Seq<char>, Seq<char>) {
    (
        "[message]\n"@ + record.message@ + "\n"@,
        optional_section("\n[description]\n"@, opt_view(record.description)),
        optional_section("\n[prompt]\n"@, opt_view(record.prompt_text)),
        optional_section(
            "\n[reasoning]\n"@,
            match record.reasoning {
                Some(r) => Some(reasoning_excerpt(r@)),
                None => None,
            },
        ),
        optional_section("\n[task_plan]\n"@, opt_view(record.task_plan)),
        files_section(views(record.files@)),
        author_section(
            opt_view(record.ai_model),
            opt_view(record.ai_vendor),
            opt_view(record.ai_tool),
            views(record.authors@),
        ),
    )
}

proof fn lemma_document_parts(record: ChangeRecord)
    ensures
        ({
            let p = document_parts(record);
            record.document() == p.0 + p.1 + p.2 + p.3 + p.4 + p.5 + p.6
        }),
{
}

/// The document opens with the message line, and right after it comes the
/// description section when there is a description: `[description]` and
/// its text on their own lines, whatever the other fields hold.
pub proof fn lemma_document_opens_with_message_and_description(record: ChangeRecord)
    ensures
        ("[message]\n"@ + record.message@ + "\n"@).is_prefix_of(record.document()),
        record.description matches Some(d) ==> ("[message]\n"@ + record.message@ + "\n"@
            + "\n[description]\n"@ + d@ + "\n"@).is_prefix_of(record.document()),
{
    lemma_document_parts(record);
    let p = document_parts(record);
    lemma_regroup5(p.0 + p.1, p.2, p.3, p.4, p.5, p.6);
    lemma_prefix_of_concat(p.0 + p.1, p.2 + p.3 + p.4 + p.5 + p.6);
    assert(p.0.is_prefix_of(p.0 + p.1 + p.2 + p.3 + p.4 + p.5 + p.6)) by {
        lemma_regroup2(p.0, p.1, p.2 + p.3 + p.4 + p.5 + p.6);
        lemma_prefix_of_concat(p.0, p.1 + (p.2 + p.3 + p.4 + p.5 + p.6));
    }
    if record.description is Some {
        let d = record.description->Some_0;
        assert(p.0 + p.1 == "[message]\n"@ + record.message@ + "\n"@ + "\n[description]\n"@ + d@ + "\n"@) by {
            assert(p.1 == "\n[description]\n"@ + d@ + "\n"@);
            assert(p.0 + p.1 =~= "[message]\n"@ + record.message@ + "\n"@ + "\n[description]\n"@ + d@ + "\n"@);
        }
    }
}

/// The reasoning enters the document cut to at most 2000 bytes of UTF-8:
/// the excerpt is a prefix of the reasoning, all of it when it fits in 2000
/// bytes, and otherwise exactly its first 2000 bytes.
pub proof fn lemma_reasoning_excerpt_is_cut_prefix(reasoning: Seq<char>)
    requires
        reasoning_cuttable(reasoning),
    ensures
        reasoning_excerpt(reasoning).is_prefix_of(reasoning),
        encode_utf8(reasoning).len() <= 2000 ==> reasoning_excerpt(reasoning) == reasoning,
        encode_utf8(reasoning).len() > 2000 ==> encode_utf8(reasoning_excerpt(reasoning))
            == encode_utf8(reasoning).subrange(0, 2000),
{
    let bytes = encode_utf8(reasoning);
    if bytes.len() > 2000 {
        encode_utf8_valid_utf8(reasoning);
        encode_utf8_decode_utf8(reasoning);
        decode_utf8_split(bytes, 2000);
        valid_utf8_split(bytes, 2000);
        decode_utf8_encode_utf8(bytes.subrange(0, 2000));
        let head = decode_utf8(bytes.subrange(0, 2000));
        let tail = decode_utf8(bytes.subrange(2000, bytes.len() as int));
        assert(reasoning == head + tail);
        assert((head + tail).subrange(0, head.len() as int) =~= head);
    } else {
        assert(reasoning.subrange(0, reasoning.len() as int) =~= reasoning);
    }
}

/// The files section lists every file, one per line, when there are at
/// most twenty; beyond that, the first twenty and then a line that tells how
/// many more there are. Without files there is no section.
pub proof fn lemma_files_section_lists_files(files: Seq<Seq<char>>)
    ensures
        files.len() == 0 ==> files_section(files) == Seq::<char>::empty(),
        0 < files.len() <= 20 ==> files_section(files) == "\n[files]\n"@ + joined(files, "\n"@)
            + "\n"@,
        files.len() > 20 ==> files_section(files) == "\n[files]\n"@ + joined(files.take(20), "\n"@)
            + "\n... and "@ + decimal((files.len() - 20) as nat) + " more files"@ + "\n"@,
{
}

/// The files section depends on the files alone: two records that differ
/// only in their files have documents that differ only in that section.
pub proof fn lemma_files_section_independent(
    record: ChangeRecord,
    first: Vec<String>,
    second: Vec<String>,
)
    ensures
        differ_only_in(
            ChangeRecord { files: first, ..record }.document(),
            ChangeRecord { files: second, ..record }.document(),
            files_section(views(first@)),
            files_section(views(second@)),
        ),
{
    let r1 = ChangeRecord { files: first, ..record };
    let r2 = ChangeRecord { files: second, ..record };
    let s1 = files_section(views(first@));
    let s2 = files_section(views(second@));
    lemma_document_parts(r1);
    lemma_document_parts(r2);
    let p1 = document_parts(r1);
    let p2 = document_parts(r2);
    let before = p1.0 + p1.1 + p1.2 + p1.3 + p1.4;
    let after = p1.6;
    assert(r1.document() == before + s1 + after);
    assert(r2.document() == before + s2 + after);
    assert(differ_only_in(r1.document(), r2.document(), s1, s2));
}

/// The document ends with the author: the model, tool (or `unknown`) and
/// vendor of an AI-authored change; else the human authors, separated by
/// commas; a change with neither ends with its other sections.
pub proof fn lemma_document_ends_with_author(record: ChangeRecord)
    ensures
        (record.ai_model is Some && record.ai_vendor is Some) ==> ("\n[author]\n"@
            + record.ai_model->Some_0@ + " via "@ + (match record.ai_tool {
            Some(t) => t@,
            None => "unknown"@,
        }) + " ("@ + record.ai_vendor->Some_0@ + ")\n"@).is_suffix_of(record.document()),
        !(record.ai_model is Some && record.ai_vendor is Some) && record.authors@.len() > 0 ==> (
        "\n[author]\n"@ + joined(views(record.authors@), ", "@) + "\n"@).is_suffix_of(
            record.document(),
        ),
        !(record.ai_model is Some && record.ai_vendor is Some) && record.authors@.len() == 0
            ==> record.document() == "[message]\n"@ + record.message@ + "\n"@ + optional_section(
            "\n[description]\n"@,
            opt_view(record.description),
        ) + optional_section("\n[prompt]\n"@, opt_view(record.prompt_text)) + optional_section(
            "\n[reasoning]\n"@,
            match record.reasoning {
                Some(r) => Some(reasoning_excerpt(r@)),
                None => None,
            },
        ) + optional_section("\n[task_plan]\n"@, opt_view(record.task_plan)) + files_section(
            views(record.files@),
        ),
{
    lemma_document_parts(record);
    let p = document_parts(record);
    let before = p.0 + p.1 + p.2 + p.3 + p.4 + p.5;
    assert(record.document() == before + p.6);
    assert((before + p.6).subrange(before.len() as int, (before + p.6).len() as int) =~= p.6);
    if record.authors@.len() == 0 && !(record.ai_model is Some && record.ai_vendor is Some) {
        assert(p.6 == Seq::<char>::empty());
        assert(before + p.6 =~= before);
    }
}

/// The description section depends on the description alone: two records
/// that differ only there have documents that differ only in that section,
/// which is `[description]` and the text on their own lines when there is
/// one, and nothing when there is none.
pub proof fn lemma_description_section_independent(
    record: ChangeRecord,
    first: Option<String>,
    second: Option<String>,
)
    ensures
        differ_only_in(
            ChangeRecord { description: first, ..record }.document(),
            ChangeRecord { description: second, ..record }.document(),
            match first {
                    Some(d) => "\n[description]\n"@ + d@ + "\n"@,
                    None => seq![],
                },
            match second {
                    Some(d) => "\n[description]\n"@ + d@ + "\n"@,
                    None => seq![],
                },
        ),
{
    let r1 = ChangeRecord { description: first, ..record };
    let r2 = ChangeRecord { description: second, ..record };
    let s1 = match first {
        Some(d) => "\n[description]\n"@ + d@ + "\n"@,
        None => seq![],
    };
    let s2 = match second {
        Some(d) => "\n[description]\n"@ + d@ + "\n"@,
        None => seq![],
    };
    lemma_document_parts(r1);
    lemma_document_parts(r2);
    let p1 = document_parts(r1);
    let p2 = document_parts(r2);
    assert(p1.1 == s1);
    assert(p2.1 == s2);
    lemma_regroup5(p1.0 + p1.1, p1.2, p1.3, p1.4, p1.5, p1.6);
    lemma_regroup5(p1.0 + p2.1, p1.2, p1.3, p1.4, p1.5, p1.6);
    let before = p1.0;
    let after = p1.2 + p1.3 + p1.4 + p1.5 + p1.6;
    assert(r1.document() == before + s1 + after);
    assert(r2.document() == before + s2 + after);
    assert(differ_only_in(r1.document(), r2.document(), s1, s2));
}

/// The prompt section depends on the prompt alone: two records that differ
/// only in their prompt have documents that differ only in that section.
pub proof fn lemma_prompt_section_independent(
    record: ChangeRecord,
    first: Option<String>,
    second: Option<String>,
)
    ensures
        differ_only_in(
            ChangeRecord { prompt_text: first, ..record }.document(),
            ChangeRecord { prompt_text: second, ..record }.document(),
            match first {
                    Some(p) => "\n[prompt]\n"@ + p@ + "\n"@,
                    None => seq![],
                },
            match second {
                    Some(p) => "\n[prompt]\n"@ + p@ + "\n"@,
                    None => seq![],
                },
        ),
{
    let r1 = ChangeRecord { prompt_text: first, ..record };
    let r2 = ChangeRecord { prompt_text: second, ..record };
    let s1 = match first {
        Some(p) => "\n[prompt]\n"@ + p@ + "\n"@,
        None => seq![],
    };
    let s2 = match second {
        Some(p) => "\n[prompt]\n"@ + p@ + "\n"@,
        None => seq![],
    };
    lemma_document_parts(r1);
    lemma_document_parts(r2);
    let p1 = document_parts(r1);
    let p2 = document_parts(r2);
    assert(p1.2 == s1);
    assert(p2.2 == s2);
    lemma_regroup4(p1.0 + p1.1 + p1.2, p1.3, p1.4, p1.5, p1.6);
    lemma_regroup4(p1.0 + p1.1 + p2.2, p1.3, p1.4, p1.5, p1.6);
    let before = p1.0 + p1.1;
    let after = p1.3 + p1.4 + p1.5 + p1.6;
    assert(r1.document() == before + s1 + after);
    assert(r2.document() == before + s2 + after);
    assert(differ_only_in(r1.document(), r2.document(), s1, s2));
}

/// The reasoning section depends on the reasoning alone: two records that
/// differ only in their reasoning have documents that differ only in that
/// section, which holds the reasoning cut to its first 2000 bytes.
pub proof fn lemma_reasoning_section_independent(
    record: ChangeRecord,
    first: Option<String>,
    second: Option<String>,
)
    ensures
        differ_only_in(
            ChangeRecord { reasoning: first, ..record }.document(),
            ChangeRecord { reasoning: second, ..record }.document(),
            match first {
                    Some(r) => "\n[reasoning]\n"@ + reasoning_excerpt(r@) + "\n"@,
                    None => seq![],
                },
            match second {
                    Some(r) => "\n[reasoning]\n"@ + reasoning_excerpt(r@) + "\n"@,
                    None => seq![],
                },
        ),
{
    let r1 = ChangeRecord { reasoning: first, ..record };
    let r2 = ChangeRecord { reasoning: second, ..record };
    let s1 = match first {
        Some(r) => "\n[reasoning]\n"@ + reasoning_excerpt(r@) + "\n"@,
        None => seq![],
    };
    let s2 = match second {
        Some(r) => "\n[reasoning]\n"@ + reasoning_excerpt(r@) + "\n"@,
        None => seq![],
    };
    lemma_document_parts(r1);
    lemma_document_parts(r2);
    let p1 = document_parts(r1);
    let p2 = document_parts(r2);
    assert(p1.3 == s1);
    assert(p2.3 == s2);
    lemma_regroup3(p1.0 + p1.1 + p1.2 + p1.3, p1.4, p1.5, p1.6);
    lemma_regroup3(p1.0 + p1.1 + p1.2 + p2.3, p1.4, p1.5, p1.6);
    let before = p1.0 + p1.1 + p1.2;
    let after = p1.4 + p1.5 + p1.6;
    assert(r1.document() == before + s1 + after);
    assert(r2.document() == before + s2 + after);
    assert(differ_only_in(r1.document(), r2.document(), s1, s2));
}

/// The task plan section depends on the task plan alone: two records that
/// differ only in their task plan have documents that differ only in that
/// section, whatever the reasoning and the other fields hold.
pub proof fn lemma_task_plan_section_independent(
    record: ChangeRecord,
    first: Option<String>,
    second: Option<String>,
)
    ensures
        differ_only_in(
            ChangeRecord { task_plan: first, ..record }.document(),
            ChangeRecord { task_plan: second, ..record }.document(),
            match first {
                    Some(t) => "\n[task_plan]\n"@ + t@ + "\n"@,
                    None => seq![],
                },
            match second {
                    Some(t) => "\n[task_plan]\n"@ + t@ + "\n"@,
                    None => seq![],
                },
        ),
{
    let r1 = ChangeRecord { task_plan: first, ..record };
    let r2 = ChangeRecord { task_plan: second, ..record };
    let s1 = match first {
        Some(t) => "\n[task_plan]\n"@ + t@ + "\n"@,
        None => seq![],
    };
    let s2 = match second {
        Some(t) => "\n[task_plan]\n"@ + t@ + "\n"@,
        None => seq![],
    };
    lemma_document_parts(r1);
    lemma_document_parts(r2);
    let p1 = document_parts(r1);
    let p2 = document_parts(r2);
    assert(p1.4 == s1);
    assert(p2.4 == s2);
    lemma_regroup2(p1.0 + p1.1 + p1.2 + p1.3 + p1.4, p1.5, p1.6);
    lemma_regroup2(p1.0 + p1.1 + p1.2 + p1.3 + p2.4, p1.5, p1.6);
    let before = p1.0 + p1.1 + p1.2 + p1.3;
    let after = p1.5 + p1.6;
    assert(r1.document() == before + s1 + after);
    assert(r2.document() == before + s2 + after);
    assert(differ_only_in(r1.document(), r2.document(), s1, s2));
}


/// Paths that the change-history replay tool leaves behind; they say nothing
/// about a change.
pub const SCRATCH_PREFIX: &'static str = ".gen-history-scratch";

/// The ignore file of a repository.
pub const IGNORE_PREFIX: &'static str = ".atomicignore";

/// A file path of a change is listed unless it belongs to the replay tool's
/// scratch area or to the ignore file.
pub open spec fn is_listed_path(path: Seq<char>) -> bool {
    !SCRATCH_PREFIX@.is_prefix_of(path) && !IGNORE_PREFIX@.is_prefix_of(path)
}

/// Whether a file path of a change is listed in its record.
pub fn is_listed_file(path: &str) -> (r: bool)
    ensures
        r == is_listed_path(path@),
{
    !has_prefix(path, SCRATCH_PREFIX) && !has_prefix(path, IGNORE_PREFIX)
}

/// The listed paths among `paths`, in their order.
pub open spec fn listed_paths(paths: Seq<Seq<char>>) -> Seq<Seq<char>>
    decreases paths.len(),
{
    if paths.len() == 0 {
        seq![]
    } else if is_listed_path(paths.last()) {
        listed_paths(paths.drop_last()).push(paths.last())
    } else {
        listed_paths(paths.drop_last())
    }
}

/// Keeps the file paths of a change that its record lists, in their order.
pub fn listed_files(paths: Vec<String>) -> (files: Vec<String>)
    ensures
        views(files@) == listed_paths(views(paths@)),
{
    let ghost all = views(paths@);
    let n = paths.len();
    let mut rest = paths;
    let mut files: Vec<String> = Vec::new();
    let mut i: usize = 0;
    while i < n
        invariant
            n == all.len(),
            i <= n,
            rest@.len() == n - i,
            views(rest@) == all.subrange(i as int, n as int),
            views(files@) == listed_paths(all.take(i as int)),
        decreases n - i,
    {
        let ghost before = rest@;
        let path = rest.remove(0);
        assert(views(before)[0] == all[i as int]);
        assert(path@ == all[i as int]);
        assert forall|j: int| 0 <= j < rest@.len() implies views(rest@)[j] == all[i + 1 + j] by {
            assert(rest@[j] == before[j + 1]);
            assert(views(before)[j + 1] == all[i + j + 1]);
        }
        assert(views(rest@) =~= all.subrange(i + 1, n as int));
        assert(all.take(i + 1).drop_last() =~= all.take(i as int));
        if is_listed_file(path.as_str()) {
            files.push(path);
            assert(views(files@) =~= listed_paths(all.take(i as int)).push(all[i as int]));
        }
        i = i + 1;
    }
    assert(all.take(n as int) =~= all);
    files
}

/// The prompt text of a change: the text of its prompt when there is a
/// non-empty one.
pub open spec fn prompt_text_of(text: Option<Seq<char>>) -> Option<Seq<char>> {
    match text {
        Some(t) => if t.len() > 0 {
            Some(t)
        } else {
            None
        },
        None => None,
    }
}

/// The prompt text of a change, from the text of its prompt (if it has one):
/// an empty text counts as none.
pub fn prompt_text(text: Option<&str>) -> (r: Option<String>)
    ensures
        opt_view(r) == prompt_text_of(
            match text {
                Some(t) => Some(t@),
                None => None,
            },
        ),
{
    match text {
        Some(t) => if t.is_empty() {
            None
        } else {
            Some(t.to_owned())
        },
        None => None,
    }
}

/// The AI provenance of a change, as recorded by the version control system.
#[derive(Debug)]
pub struct Provenance {
    pub vendor: String,
    pub model: String,
    pub tool: String,
    /// The text of the prompt that started the change, if the prompt has one.
    pub prompt: Option<String>,
    pub reasoning_text: Option<String>,
    pub task_plan: Option<String>,
    pub input_tokens: u64,
    pub output_tokens: u64,
    /// The cost in US dollars, as the SQL value to store for it.
    pub cost_usd: rusqlite::types::Value,
    pub session_id: Option<String>,
}

/// The header of a change and its hash, as the version control system
/// records them.
#[derive(Debug)]
pub struct ChangeHeader {
    /// The change hash in base32.
    pub hash: String,
    pub message: String,
    pub description: Option<String>,
    /// Seconds since the Unix epoch.
    pub timestamp: i64,
    /// The short display form of each author.
    pub authors: Vec<String>,
}

impl ChangeRecord {
    /// The record assembled from `header`, the paths of the files the change
    /// touches, and its first provenance entry (if any).
    pub open spec fn assembled(
        header: ChangeHeader,
        paths: Seq<Seq<char>>,
        provenance: Option<Provenance>,
        record: ChangeRecord,
    ) -> bool {
        &&& record.hash == header.hash
        &&& record.message == header.message
        &&& record.description == header.description
        &&& record.timestamp == header.timestamp
        &&& record.authors == header.authors
        &&& views(record.files@) == listed_paths(paths)
        &&& match provenance {
            Some(p) => {
                &&& record.ai_vendor == Some(p.vendor)
                &&& record.ai_model == Some(p.model)
                &&& record.ai_tool == Some(p.tool)
                &&& opt_view(record.prompt_text) == prompt_text_of(opt_view(p.prompt))
                &&& record.reasoning == p.reasoning_text
                &&& record.task_plan == p.task_plan
                &&& record.tokens_in == Some(p.input_tokens as i64)
                &&& record.tokens_out == Some(p.output_tokens as i64)
                &&& record.cost_usd == Some(p.cost_usd)
                &&& record.session_id == p.session_id
            },
            None => {
                &&& record.ai_vendor is None
                &&& record.ai_model is None
                &&& record.ai_tool is None
                &&& record.prompt_text is None
                &&& record.reasoning is None
                &&& record.task_plan is None
                &&& record.tokens_in is None
                &&& record.tokens_out is None
                &&& record.cost_usd is None
                &&& record.session_id is None
            },
        }
    }

    /// Assembles the record of a change from its header, the paths of the
    /// files it touches (the replay tool's scratch files and the ignore file
    /// left out) and its first provenance entry, if any; token counts are
    /// stored as signed 64-bit integers (`as i64`).
    pub fn from_change(header: ChangeHeader, paths: Vec<String>, provenance: Option<Provenance>) -> (record:
        ChangeRecord)
        ensures
            ChangeRecord::assembled(header, views(paths@), provenance, record),
    {
        let files = listed_files(paths);
        match provenance {
            Some(p) => {
                let prompt = match &p.prompt {
                    Some(t) => prompt_text(Some(t.as_str())),
                    None => None,
                };
                ChangeRecord {
                    hash: header.hash,
                    message: header.message,
                    description: header.description,
                    timestamp: header.timestamp,
                    authors: header.authors,
                    files,
                    ai_vendor: Some(p.vendor),
                    ai_model: Some(p.model),
                    ai_tool: Some(p.tool),
                    prompt_text: prompt,
                    reasoning: p.reasoning_text,
                    task_plan: p.task_plan,
                    tokens_in: Some(p.input_tokens as i64),
                    tokens_out: Some(p.output_tokens as i64),
                    cost_usd: Some(p.cost_usd),
                    session_id: p.session_id,
                }
            },
            None => ChangeRecord {
                hash: header.hash,
                message: header.message,
                description: header.description,
                timestamp: header.timestamp,
                authors: header.authors,
                files,
                ai_vendor: None,
                ai_model: None,
                ai_tool: None,
                prompt_text: None,
                reasoning: None,
                task_plan: None,
                tokens_in: None,
                tokens_out: None,
                cost_usd: None,
                session_id: None,
            },
        }
    }

    /// Whether the embedding document can be built for this record: its
    /// reasoning, if longer than 2000 bytes, has a character starting at
    /// byte 2000.
    pub fn document_cuttable(&self) -> (r: bool)
        ensures
            r == self.well_cut(),
    {
        match &self.reasoning {
            Some(reasoning) => {
                let text = reasoning.as_str();
                text.as_bytes().len() <= REASONING_BYTE_LIMIT || text.is_char_boundary(
                    REASONING_BYTE_LIMIT,
                )
            },
            None => true,
        }
    }
}

/// The timestamps of a sequence of records.
pub open spec fn timestamps(records: Seq<ChangeRecord>) -> Seq<i64> {
    records.map_values(|r: ChangeRecord| r.timestamp)
}

/// `sorted` holds the records of `records` in the stable order of their
/// timestamps: oldest first, records with equal timestamps as they came.
pub open spec fn sorted_by_timestamp(records: Seq<ChangeRecord>, sorted: Seq<ChangeRecord>) -> bool {
    exists|order: Seq<usize>|
        {
            &&& is_stable_order(timestamps(records), order)
            &&& sorted.len() == records.len()
            &&& forall|k: int| 0 <= k < sorted.len() ==> #[trigger] sorted[k] == records[order[k] as int]
        }
}

/// Orders records by timestamp, ascending; records with equal timestamps
/// keep their order (a stable sort, as `sort_by_key` is).
pub fn sort_by_timestamp(records: Vec<ChangeRecord>) -> (sorted: Vec<ChangeRecord>)
    ensures
        sorted_by_timestamp(records@, sorted@),
{
    let ghost orig = records@;
    let ghost keys = timestamps(orig);
    let n = records.len();
    let mut rest = records;
    let mut sorted: Vec<ChangeRecord> = Vec::new();
    let ghost mut order: Seq<usize> = Seq::empty();
    let mut i: usize = 0;
    while i < n
        invariant
            n == orig.len(),
            keys == timestamps(orig),
            i <= n,
            rest@ == orig.subrange(i as int, n as int),
            is_index_permutation(order, i as nat),
            is_stably_sorted(keys, order),
            sorted@.len() == order.len(),
            forall|k: int| 0 <= k < sorted@.len() ==> #[trigger] sorted@[k] == orig[order[k] as int],
        decreases n - i,
    {
        let record = rest.remove(0);
        assert(record == orig[i as int]);
        let mut pos: usize = 0;
        while pos < sorted.len()
            invariant
                i < n,
                n == orig.len(),
                keys == timestamps(orig),
                record == orig[i as int],
                is_index_permutation(order, i as nat),
                sorted@.len() == order.len(),
                forall|k: int| 0 <= k < sorted@.len() ==> #[trigger] sorted@[k] == orig[order[k] as int],
                pos <= sorted.len(),
                forall|k: int| 0 <= k < pos ==> keys[order[k] as int] <= keys[i as int],
            ensures
                pos <= sorted.len(),
                forall|k: int| 0 <= k < pos ==> keys[order[k] as int] <= keys[i as int],
                pos < sorted.len() ==> keys[order[pos as int] as int] > keys[i as int],
            decreases sorted.len() - pos,
        {
            assert(sorted@[pos as int] == orig[order[pos as int] as int]);
            assert(keys[order[pos as int] as int] == sorted@[pos as int].timestamp);
            assert(keys[i as int] == record.timestamp);
            if sorted[pos].timestamp > record.timestamp {
                break;
            }
            pos = pos + 1;
        }
        proof {
            if pos < sorted.len() {
                assert(sorted@[pos as int] == orig[order[pos as int] as int]);
            }
            lemma_insert_position(keys, order, pos as int, i);
        }
        let ghost prev = sorted@;
        let ghost prev_order = order;
        sorted.insert(pos, record);
        proof {
            order = order.insert(pos as int, i);
            assert forall|k: int| 0 <= k < sorted@.len() implies #[trigger] sorted@[k] == orig[order[k] as int] by {
                if k < pos {
                    assert(sorted@[k] == prev[k] && order[k] == prev_order[k]);
                } else if k > pos {
                    assert(sorted@[k] == prev[k - 1] && order[k] == prev_order[k - 1]);
                }
            }
            assert(rest@ =~= orig.subrange(i + 1, n as int));
        }
        i = i + 1;
    }
    assert(sorted@.len() == orig.len());
    assert(is_stable_order(timestamps(orig), order));
    sorted
}


/// Sorting by timestamp puts the oldest change first and keeps every record
/// exactly once; records with equal timestamps keep their order.
pub proof fn lemma_sorted_records_oldest_first(records: Seq<ChangeRecord>, sorted: Seq<ChangeRecord>)
    requires
        sorted_by_timestamp(records, sorted),
        records.len() <= usize::MAX,
    ensures
        sorted.len() == records.len(),
        forall|i: int, j: int|
            0 <= i < j < sorted.len() ==> (#[trigger] sorted[i]).timestamp <= (#[trigger] sorted[j]).timestamp,
        forall|k: int| 0 <= k < records.len() ==> sorted.contains(#[trigger] records[k]),
{
    let keys = timestamps(records);
    let order = choose|order: Seq<usize>|
        {
            &&& is_stable_order(timestamps(records), order)
            &&& sorted.len() == records.len()
            &&& forall|k: int| 0 <= k < sorted.len() ==> #[trigger] sorted[k] == records[order[k] as int]
        };
    assert forall|i: int, j: int| 0 <= i < j < sorted.len() implies (#[trigger] sorted[i]).timestamp
        <= (#[trigger] sorted[j]).timestamp by {
        assert(sorted[i] == records[order[i] as int]);
        assert(sorted[j] == records[order[j] as int]);
        assert(key_before(keys, order[i], order[j]));
        assert(keys[order[i] as int] == records[order[i] as int].timestamp);
        assert(keys[order[j] as int] == records[order[j] as int].timestamp);
    }
    assert forall|k: int| 0 <= k < records.len() implies sorted.contains(#[trigger] records[k]) by {
        lemma_permutation_covers(order, keys.len(), k as usize);
        let j = choose|j: int| 0 <= j < order.len() && order[j] == k as usize;
        assert(order[j] as int == k);
        assert(sorted[j] == records[order[j] as int]);
        assert(sorted[j] == records[k]);
    }
}

} // verus!
