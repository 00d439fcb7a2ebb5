//! The canonical encoding of a descriptor and its inverse.
//!
//! A descriptor encodes as one compact JSON object with a fixed field
//! order (the field names are an interop contract):
//! `{"human_name":s,"description":s,"category":s,"inputs":{...},"outputs":{...}}`.
//! Each interface table is an object of `name: {"name":s,"data_format":f}`
//! entries, and a format is `"Tick"`, `"ConstNumber"`, `"ConstString"`, or
//! `{"Json":t}` where `t` is the schema document's JSON text, kept verbatim.
//!
//! The decoder accepts exactly this canonical form and fails on anything
//! else: an unrecognized tag, a missing or reordered field, a duplicate
//! key, or a schema document that does not scan as one complete value.
//! The schema text itself is captured verbatim by a bracket-and-string
//! scan; it is not validated as JSON, in keeping with the schema being
//! checked only by convention downstream.

use vstd::prelude::*;

use crate::descriptor::{
    distinct_keys, entries_view, entry_view, DataFormat, FormatModel, Interface, InterfaceModel, ProgramInfo, ProgramModel,
};

verus! {

// ---------------------------------------------------------------------
// Well-formedness: which descriptors the canonical encoding covers.
// ---------------------------------------------------------------------

/// Text that may stand inside an encoded JSON string: no control
/// characters (they would need escape forms the canonical encoding does
/// not use).
pub open spec fn wf_text(s: Seq<char>) -> bool {
    forall|i: int| 0 <= i < s.len() ==> (#[trigger] s[i] as u32) >= 32
}

/// A schema document is kept as JSON text that scans as exactly one
/// complete JSON value.
pub open spec fn wf_schema(t: Seq<char>) -> bool {
    t.len() >= 1 && scan_value(t, 0) == Some(t.len() as int)
}

pub open spec fn wf_format(f: FormatModel) -> bool {
    match f {
        FormatModel::Json { schema } => wf_schema(schema),
        _ => true,
    }
}

pub open spec fn wf_interface(m: InterfaceModel) -> bool {
    wf_text(m.name) && wf_format(m.data_format)
}

pub open spec fn wf_entries(es: Seq<(Seq<char>, InterfaceModel)>) -> bool {
    &&& distinct_keys(es)
    &&& forall|i: int|
        0 <= i < es.len() ==> wf_text(#[trigger] es[i].0) && wf_interface(es[i].1)
}

/// The descriptors the canonical encoding is defined for; every
/// descriptor the decoder accepts is of this shape.
pub open spec fn wf_descriptor(d: ProgramModel) -> bool {
    &&& wf_text(d.human_name)
    &&& wf_text(d.description)
    &&& wf_text(d.category)
    &&& wf_entries(d.inputs)
    &&& wf_entries(d.outputs)
}

// ---------------------------------------------------------------------
// The canonical encoder, at the spec level.
// ---------------------------------------------------------------------

/// How one character stands inside an encoded string.
pub open spec fn esc_char(c: char) -> Seq<char> {
    if c == '"' || c == '\\' {
        seq!['\\', c]
    } else {
        seq![c]
    }
}

/// String contents with `"` and `\` escaped.
pub open spec fn esc(s: Seq<char>) -> Seq<char>
    decreases s.len(),
{
    if s.len() == 0 {
        Seq::empty()
    } else {
        esc_char(s[0]) + esc(s.drop_first())
    }
}

/// An encoded JSON string.
pub open spec fn enc_str(s: Seq<char>) -> Seq<char> {
    seq!['"'] + esc(s) + seq!['"']
}

pub open spec fn enc_format(f: FormatModel) -> Seq<char> {
    match f {
        FormatModel::Tick => "\"Tick\""@,
        FormatModel::ConstNumber => "\"ConstNumber\""@,
        FormatModel::ConstString => "\"ConstString\""@,
        FormatModel::Json { schema } => "{\"Json\":"@ + schema + seq!['}'],
    }
}

pub open spec fn enc_interface(m: InterfaceModel) -> Seq<char> {
    "{\"name\":"@ + enc_str(m.name) + ",\"data_format\":"@ + enc_format(m.data_format)
        + seq!['}']
}

pub open spec fn enc_entry(e: (Seq<char>, InterfaceModel)) -> Seq<char> {
    enc_str(e.0) + seq![':'] + enc_interface(e.1)
}

/// The entries of a table after the first, each preceded by a comma.
pub open spec fn enc_entries_rest(es: Seq<(Seq<char>, InterfaceModel)>) -> Seq<char>
    decreases es.len(),
{
    if es.len() == 0 {
        Seq::empty()
    } else {
        seq![','] + enc_entry(es[0]) + enc_entries_rest(es.drop_first())
    }
}

pub open spec fn enc_entries(es: Seq<(Seq<char>, InterfaceModel)>) -> Seq<char> {
    if es.len() == 0 {
        Seq::empty()
    } else {
        enc_entry(es[0]) + enc_entries_rest(es.drop_first())
    }
}

/// An interface table: a JSON object of its entries.
pub open spec fn enc_table(es: Seq<(Seq<char>, InterfaceModel)>) -> Seq<char> {
    seq!['{'] + enc_entries(es) + seq!['}']
}

/// The three leading text fields of a descriptor.
pub open spec fn enc_fields(d: ProgramModel) -> Seq<char> {
    "\"human_name\":"@ + enc_str(d.human_name) + ",\"description\":"@ + enc_str(d.description)
        + ",\"category\":"@ + enc_str(d.category)
}

/// The two interface tables of a descriptor, with the closing brace.
pub open spec fn enc_tables(d: ProgramModel) -> Seq<char> {
    ",\"inputs\":"@ + enc_table(d.inputs) + ",\"outputs\":"@ + enc_table(d.outputs) + seq!['}']
}

/// The canonical encoding of a whole descriptor.
pub open spec fn enc_descriptor(d: ProgramModel) -> Seq<char> {
    seq!['{'] + enc_fields(d) + enc_tables(d)
}

// ---------------------------------------------------------------------
// Scanning one embedded JSON value (the schema document).
// ---------------------------------------------------------------------

/// Inside a JSON string, after its opening quote: the position just past
/// the closing quote.
pub open spec fn scan_str(s: Seq<char>, i: int) -> Option<int>
    decreases s.len() - i,
{
    if i < 0 || i >= s.len() {
        None
    } else if s[i] == '\\' {
        if i + 1 < s.len() {
            scan_str(s, i + 2)
        } else {
            None
        }
    } else if s[i] == '"' {
        Some(i + 1)
    } else {
        scan_str(s, i + 1)
    }
}

/// Inside a compound value, after its opening brace or bracket, with
/// `depth` unclosed openers: the position just past the matching closer.
pub open spec fn scan_comp(s: Seq<char>, i: int, depth: int) -> Option<int>
    decreases s.len() - i,
{
    if i < 0 || i >= s.len() || depth <= 0 {
        None
    } else if s[i] == '{' || s[i] == '[' {
        scan_comp(s, i + 1, depth + 1)
    } else if s[i] == '}' || s[i] == ']' {
        if depth == 1 {
            Some(i + 1)
        } else {
            scan_comp(s, i + 1, depth - 1)
        }
    } else if s[i] == '"' {
        match scan_str(s, i + 1) {
            Some(j) => {
                if i < j && j <= s.len() {
                    scan_comp(s, j, depth)
                } else {
                    None
                }
            },
            None => None,
        }
    } else {
        scan_comp(s, i + 1, depth)
    }
}

/// A character that ends a bare scalar token.
pub open spec fn is_scalar_end(c: char) -> bool {
    c == ',' || c == '}' || c == ']' || c == '"' || c == '{' || c == '[' || c == ':'
}

/// Inside a bare scalar, the position of the first character past it.
pub open spec fn scan_scalar(s: Seq<char>, i: int) -> Option<int>
    decreases s.len() - i,
{
    if i < 0 {
        None
    } else if i >= s.len() {
        Some(i)
    } else if is_scalar_end(s[i]) {
        Some(i)
    } else {
        scan_scalar(s, i + 1)
    }
}

/// The position just past the single JSON value starting at `i`.
pub open spec fn scan_value(s: Seq<char>, i: int) -> Option<int> {
    if i < 0 || i >= s.len() {
        None
    } else if s[i] == '{' || s[i] == '[' {
        scan_comp(s, i + 1, 1)
    } else if s[i] == '"' {
        scan_str(s, i + 1)
    } else if is_scalar_end(s[i]) {
        None
    } else {
        scan_scalar(s, i + 1)
    }
}

// ---------------------------------------------------------------------
// The parser, at the spec level. Every function consumes from position
// `i` and yields the parsed value with the position just past it.
// ---------------------------------------------------------------------

/// A literal token: matches exactly `lit` at `i`.
pub open spec fn p_lit(s: Seq<char>, i: int, lit: Seq<char>) -> Option<int> {
    if 0 <= i && i + lit.len() <= s.len() && s.subrange(i, i + lit.len()) == lit {
        Some(i + lit.len())
    } else {
        None
    }
}

/// String contents after the opening quote, undoing the two escape
/// forms; control characters and other escapes are rejected.
pub open spec fn p_str_body(s: Seq<char>, i: int) -> Option<(Seq<char>, int)>
    decreases s.len() - i,
{
    if i < 0 || i >= s.len() {
        None
    } else if s[i] == '"' {
        Some((Seq::empty(), i + 1))
    } else if s[i] == '\\' {
        if i + 1 < s.len() && (s[i + 1] == '"' || s[i + 1] == '\\') {
            match p_str_body(s, i + 2) {
                Some((t, j)) => Some((seq![s[i + 1]] + t, j)),
                None => None,
            }
        } else {
            None
        }
    } else if (s[i] as u32) >= 32 {
        match p_str_body(s, i + 1) {
            Some((t, j)) => Some((seq![s[i]] + t, j)),
            None => None,
        }
    } else {
        None
    }
}

/// A JSON string token.
pub open spec fn p_str(s: Seq<char>, i: int) -> Option<(Seq<char>, int)> {
    if 0 <= i && i < s.len() && s[i] == '"' {
        p_str_body(s, i + 1)
    } else {
        None
    }
}

/// A data format: one of the three bare tags, or a tagged schema object.
pub open spec fn p_format(s: Seq<char>, i: int) -> Option<(FormatModel, int)> {
    if i < 0 || i >= s.len() {
        None
    } else if s[i] == '{' {
        match p_lit(s, i, "{\"Json\":"@) {
            Some(j) => match scan_value(s, j) {
                Some(k) => {
                    if k < s.len() && s[k] == '}' {
                        Some((FormatModel::Json { schema: s.subrange(j, k) }, k + 1))
                    } else {
                        None
                    }
                },
                None => None,
            },
            None => None,
        }
    } else if s[i] == '"' && i + 1 < s.len() {
        if s[i + 1] == 'T' {
            match p_lit(s, i, "\"Tick\""@) {
                Some(j) => Some((FormatModel::Tick, j)),
                None => None,
            }
        } else if i + 6 < s.len() && s[i + 6] == 'N' {
            match p_lit(s, i, "\"ConstNumber\""@) {
                Some(j) => Some((FormatModel::ConstNumber, j)),
                None => None,
            }
        } else if i + 6 < s.len() && s[i + 6] == 'S' {
            match p_lit(s, i, "\"ConstString\""@) {
                Some(j) => Some((FormatModel::ConstString, j)),
                None => None,
            }
        } else {
            None
        }
    } else {
        None
    }
}

/// One interface object: `{"name":s,"data_format":f}`.
pub open spec fn p_interface(s: Seq<char>, i: int) -> Option<(InterfaceModel, int)> {
    match p_lit(s, i, "{\"name\":"@) {
        Some(j) => match p_str(s, j) {
            Some((name, k)) => match p_lit(s, k, ",\"data_format\":"@) {
                Some(l) => match p_format(s, l) {
                    Some((f, m)) => {
                        if m < s.len() && s[m] == '}' {
                            Some((InterfaceModel { name, data_format: f }, m + 1))
                        } else {
                            None
                        }
                    },
                    None => None,
                },
                None => None,
            },
            None => None,
        },
        None => None,
    }
}

/// One `key: interface` table entry.
pub open spec fn p_entry(s: Seq<char>, i: int) -> Option<((Seq<char>, InterfaceModel), int)> {
    match p_str(s, i) {
        Some((key, j)) => {
            if j < s.len() && s[j] == ':' {
                match p_interface(s, j + 1) {
                    Some((m, k)) => Some(((key, m), k)),
                    None => None,
                }
            } else {
                None
            }
        },
        None => None,
    }
}

/// The entries after the first: `,entry` repeated, then the closing brace.
pub open spec fn p_entries_rest(s: Seq<char>, i: int) -> Option<
    (Seq<(Seq<char>, InterfaceModel)>, int),
>
    decreases s.len() - i,
{
    if i < 0 || i >= s.len() {
        None
    } else if s[i] == '}' {
        Some((Seq::empty(), i + 1))
    } else if s[i] == ',' {
        match p_entry(s, i + 1) {
            Some((e, j)) => {
                if i + 1 < j && j <= s.len() {
                    match p_entries_rest(s, j) {
                        Some((es, k)) => Some((seq![e] + es, k)),
                        None => None,
                    }
                } else {
                    None
                }
            },
            None => None,
        }
    } else {
        None
    }
}

/// A whole interface table.
pub open spec fn p_table(s: Seq<char>, i: int) -> Option<(Seq<(Seq<char>, InterfaceModel)>, int)> {
    if 0 <= i && i + 1 < s.len() && s[i] == '{' {
        if s[i + 1] == '}' {
            Some((Seq::empty(), i + 2))
        } else {
            match p_entry(s, i + 1) {
                Some((e, j)) => match p_entries_rest(s, j) {
                    Some((es, k)) => Some((seq![e] + es, k)),
                    None => None,
                },
                None => None,
            }
        }
    } else {
        None
    }
}

/// The three leading text fields, after the opening brace.
pub open spec fn p_fields(s: Seq<char>, i: int) -> Option<
    ((Seq<char>, Seq<char>, Seq<char>), int),
> {
    match p_lit(s, i, "\"human_name\":"@) {
        Some(j0) => match p_str(s, j0) {
            Some((hn, j1)) => match p_lit(s, j1, ",\"description\":"@) {
                Some(j2) => match p_str(s, j2) {
                    Some((de, j3)) => match p_lit(s, j3, ",\"category\":"@) {
                        Some(j4) => match p_str(s, j4) {
                            Some((ca, j5)) => Some(((hn, de, ca), j5)),
                            None => None,
                        },
                        None => None,
                    },
                    None => None,
                },
                None => None,
            },
            None => None,
        },
        None => None,
    }
}

/// The two interface tables and the closing brace.
pub open spec fn p_tables(s: Seq<char>, i: int) -> Option<
    ((Seq<(Seq<char>, InterfaceModel)>, Seq<(Seq<char>, InterfaceModel)>), int),
> {
    match p_lit(s, i, ",\"inputs\":"@) {
        Some(j0) => match p_table(s, j0) {
            Some((ins, j1)) => match p_lit(s, j1, ",\"outputs\":"@) {
                Some(j2) => match p_table(s, j2) {
                    Some((outs, j3)) => {
                        if j3 < s.len() && s[j3] == '}' {
                            Some(((ins, outs), j3 + 1))
                        } else {
                            None
                        }
                    },
                    None => None,
                },
                None => None,
            },
            None => None,
        },
        None => None,
    }
}

/// A whole descriptor object, starting at `i`.
pub open spec fn p_descriptor(s: Seq<char>, i: int) -> Option<(ProgramModel, int)> {
    if 0 <= i && i < s.len() && s[i] == '{' {
        match p_fields(s, i + 1) {
            Some(((hn, de, ca), j)) => match p_tables(s, j) {
                Some(((ins, outs), k)) => Some(
                    (
                        ProgramModel {
                            human_name: hn,
                            description: de,
                            category: ca,
                            inputs: ins,
                            outputs: outs,
                        },
                        k,
                    ),
                ),
                None => None,
            },
            None => None,
        }
    } else {
        None
    }
}

/// What decoding a whole text yields: the descriptor, if the text is one
/// canonical descriptor with nothing after it and unique keys throughout.
pub open spec fn decode_spec(s: Seq<char>) -> Option<ProgramModel> {
    match p_descriptor(s, 0) {
        Some((d, n)) => {
            if n == s.len() && distinct_keys(d.inputs) && distinct_keys(d.outputs) {
                Some(d)
            } else {
                None
            }
        },
        None => None,
    }
}


// ---------------------------------------------------------------------
// Lemmas the encoder's loops lean on.
// ---------------------------------------------------------------------

proof fn lemma_esc_push(a: Seq<char>, c: char)
    ensures
        esc(a.push(c)) == esc(a) + esc_char(c),
    decreases a.len(),
{
    if a.len() == 0 {
        assert(a.push(c).drop_first() =~= Seq::empty());
        assert(a.push(c)[0] == c);
        assert(esc(Seq::<char>::empty()) =~= Seq::<char>::empty());
        assert(esc(a.push(c)) =~= esc_char(c));
        assert(esc(a) + esc_char(c) =~= esc_char(c));
    } else {
        assert(a.push(c).drop_first() =~= a.drop_first().push(c));
        lemma_esc_push(a.drop_first(), c);
        assert(esc(a.push(c)) =~= esc(a) + esc_char(c));
    }
}

proof fn lemma_enc_entries_rest_push(
    es: Seq<(Seq<char>, InterfaceModel)>,
    e: (Seq<char>, InterfaceModel),
)
    ensures
        enc_entries_rest(es.push(e)) == enc_entries_rest(es) + seq![','] + enc_entry(e),
    decreases es.len(),
{
    if es.len() == 0 {
        assert(es.push(e).drop_first() =~= Seq::empty());
        assert(es.push(e)[0] == e);
        assert(enc_entries_rest(Seq::<(Seq<char>, InterfaceModel)>::empty())
            =~= Seq::<char>::empty());
        assert(enc_entries_rest(es.push(e)) =~= enc_entries_rest(es) + seq![','] + enc_entry(e));
    } else {
        assert(es.push(e).drop_first() =~= es.drop_first().push(e));
        lemma_enc_entries_rest_push(es.drop_first(), e);
        assert(enc_entries_rest(es.push(e)) =~= enc_entries_rest(es) + seq![','] + enc_entry(e));
    }
}

proof fn lemma_enc_entries_push(
    es: Seq<(Seq<char>, InterfaceModel)>,
    e: (Seq<char>, InterfaceModel),
)
    ensures
        es.len() == 0 ==> enc_entries(es.push(e)) == enc_entry(e),
        es.len() > 0 ==> enc_entries(es.push(e)) == enc_entries(es) + seq![','] + enc_entry(e),
{
    if es.len() == 0 {
        assert(es.push(e).drop_first() =~= Seq::empty());
        assert(enc_entries(es.push(e)) =~= enc_entry(e));
    } else {
        assert(es.push(e).drop_first() =~= es.drop_first().push(e));
        lemma_enc_entries_rest_push(es.drop_first(), e);
        assert(enc_entries(es.push(e)) =~= enc_entries(es) + seq![','] + enc_entry(e));
    }
}

// ---------------------------------------------------------------------
// The encoder.
// ---------------------------------------------------------------------

/// Appends the characters of `v`.
fn append_chars(out: &mut Vec<char>, v: &Vec<char>)
    ensures
        final(out)@ == old(out)@ + v@,
{
    let mut k: usize = 0;
    while k < v.len()
        invariant
            k <= v@.len(),
            out@ == old(out)@ + v@.take(k as int),
        decreases v@.len() - k,
    {
        out.push(v[k]);
        proof {
            assert(v@.take(k as int + 1) =~= v@.take(k as int).push(v@[k as int]));
        }
        k += 1;
    }
    proof {
        assert(v@.take(v@.len() as int) =~= v@);
    }
}

/// Appends a literal token.
fn append_lit(out: &mut Vec<char>, lit: &str)
    ensures
        final(out)@ == old(out)@ + lit@,
{
    let v = crate::sys::chars_of(lit);
    append_chars(out, &v);
}

/// Appends one encoded JSON string.
fn append_escaped(out: &mut Vec<char>, s: &String)
    ensures
        final(out)@ == old(out)@ + enc_str(s@),
{
    let cs = crate::sys::chars_of(s.as_str());
    out.push('"');
    let mut k: usize = 0;
    while k < cs.len()
        invariant
            k <= cs@.len(),
            cs@ == s@,
            out@ == old(out)@ + seq!['"'] + esc(s@.take(k as int)),
        decreases cs@.len() - k,
    {
        let c = cs[k];
        if c == '"' || c == '\\' {
            out.push('\\');
        }
        out.push(c);
        proof {
            lemma_esc_push(s@.take(k as int), c);
            assert(s@.take(k as int + 1) =~= s@.take(k as int).push(c));
            assert(out@ =~= old(out)@ + seq!['"'] + esc(s@.take(k as int + 1)));
        }
        k += 1;
    }
    out.push('"');
    proof {
        assert(s@.take(s@.len() as int) =~= s@);
        assert(out@ =~= old(out)@ + enc_str(s@));
    }
}

/// Appends one encoded data format.
fn append_format(out: &mut Vec<char>, f: &DataFormat)
    ensures
        final(out)@ == old(out)@ + enc_format(f@),
{
    match f {
        DataFormat::Tick => append_lit(out, "\"Tick\""),
        DataFormat::ConstNumber => append_lit(out, "\"ConstNumber\""),
        DataFormat::ConstString => append_lit(out, "\"ConstString\""),
        DataFormat::Json(schema) => {
            append_lit(out, "{\"Json\":");
            let sv = crate::sys::chars_of(schema.as_str());
            append_chars(out, &sv);
            out.push('}');
            proof {
                assert(out@ =~= old(out)@ + enc_format(f@));
            }
        },
    }
}

/// Appends one encoded interface object.
fn append_interface(out: &mut Vec<char>, m: &Interface)
    ensures
        final(out)@ == old(out)@ + enc_interface(m@),
{
    append_lit(out, "{\"name\":");
    append_escaped(out, &m.name);
    append_lit(out, ",\"data_format\":");
    append_format(out, &m.data_format);
    out.push('}');
    proof {
        assert(out@ =~= old(out)@ + enc_interface(m@));
    }
}

/// Appends one encoded interface table.
fn append_table(out: &mut Vec<char>, entries: &Vec<(String, Interface)>)
    ensures
        final(out)@ == old(out)@ + enc_table(entries_view(entries@)),
{
    let ghost view = entries_view(entries@);
    out.push('{');
    let mut k: usize = 0;
    while k < entries.len()
        invariant
            k <= entries@.len(),
            view == entries_view(entries@),
            out@ == old(out)@ + seq!['{'] + enc_entries(view.take(k as int)),
        decreases entries@.len() - k,
    {
        if k > 0 {
            out.push(',');
        }
        append_escaped(out, &entries[k].0);
        out.push(':');
        append_interface(out, &entries[k].1);
        proof {
            assert(view[k as int] == entry_view(entries@[k as int]));
            assert(enc_entry(view[k as int]) == enc_str(entries@[k as int].0@) + seq![':']
                + enc_interface(entries@[k as int].1@));
            lemma_enc_entries_push(view.take(k as int), view[k as int]);
            assert(view.take(k as int + 1) =~= view.take(k as int).push(view[k as int]));
            assert(out@ =~= old(out)@ + seq!['{'] + enc_entries(view.take(k as int + 1)));
        }
        k += 1;
    }
    out.push('}');
    proof {
        assert(view.take(view.len() as int) =~= view);
        assert(out@ =~= old(out)@ + enc_table(view));
    }
}

/// Encodes a descriptor into its canonical JSON text.
pub fn encode_descriptor(info: &ProgramInfo) -> (r: String)
    ensures
        r@ == enc_descriptor(info@),
{
    let mut out: Vec<char> = Vec::new();
    out.push('{');
    append_lit(&mut out, "\"human_name\":");
    append_escaped(&mut out, &info.human_name);
    append_lit(&mut out, ",\"description\":");
    append_escaped(&mut out, &info.description);
    append_lit(&mut out, ",\"category\":");
    append_escaped(&mut out, &info.category);
    proof {
        assert(out@ =~= seq!['{'] + enc_fields(info@));
    }
    append_lit(&mut out, ",\"inputs\":");
    append_table(&mut out, &info.inputs);
    append_lit(&mut out, ",\"outputs\":");
    append_table(&mut out, &info.outputs);
    out.push('}');
    proof {
        assert(out@ =~= enc_descriptor(info@));
    }
    crate::sys::string_from_chars(&out)
}
} // verus!
