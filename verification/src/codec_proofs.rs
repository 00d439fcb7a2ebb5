//! Proof that decoding inverts the canonical encoding.
//!
//! Each lemma states that one grammar production, applied to a text that
//! carries that production's encoding at the given position, parses back
//! exactly the encoded value and stops just past it. They compose into
//! the round-trip law `lemma_encode_decode`.

use vstd::prelude::*;

use crate::codec::{
    enc_descriptor, enc_entries, enc_entries_rest, enc_entry, enc_fields, enc_format,
    enc_interface, enc_str, enc_table, enc_tables, esc, esc_char, is_scalar_end, p_descriptor,
    p_entries_rest, p_entry, p_fields, p_format, p_interface, p_str, p_str_body, p_table,
    p_tables, scan_comp, scan_scalar, scan_str, scan_value, decode_spec, wf_descriptor, wf_format,
    wf_interface, wf_schema, wf_text,
};
use crate::descriptor::{FormatModel, InterfaceModel, ProgramModel};

verus! {

/// Splitting one known subrange of `s` into its two halves.
proof fn lemma_subrange_split(s: Seq<char>, i: int, a: Seq<char>, b: Seq<char>)
    requires
        0 <= i,
        i + a.len() + b.len() <= s.len(),
        s.subrange(i, i + a.len() + b.len()) == a + b,
    ensures
        s.subrange(i, i + a.len()) == a,
        s.subrange(i + a.len(), i + a.len() + b.len()) == b,
{
    assert(s.subrange(i, i + a.len()) =~= a) by {
        assert forall|k: int| 0 <= k < a.len() implies s[i + k] == a[k] by {
            assert((a + b)[k] == a[k]);
            assert(s.subrange(i, i + a.len() + b.len())[k] == s[i + k]);
        }
    }
    assert(s.subrange(i + a.len(), i + a.len() + b.len()) =~= b) by {
        assert forall|k: int| 0 <= k < b.len() implies s[i + a.len() + k] == b[k] by {
            assert((a + b)[a.len() + k] == b[k]);
            assert(s.subrange(i, i + a.len() + b.len())[a.len() + k] == s[i + a.len() + k]);
        }
    }
}

/// A known subrange fixes each character under it.
proof fn lemma_subrange_index(s: Seq<char>, i: int, a: Seq<char>, k: int)
    requires
        0 <= i,
        i + a.len() <= s.len(),
        s.subrange(i, i + a.len()) == a,
        0 <= k < a.len(),
    ensures
        s[i + k] == a[k],
{
    assert(s.subrange(i, i + a.len())[k] == s[i + k]);
}

// ---------------------------------------------------------------------
// Bounds of the scanners.
// ---------------------------------------------------------------------

proof fn lemma_scan_str_bounds(t: Seq<char>, k: int, m: int)
    requires
        scan_str(t, k) == Some(m),
    ensures
        k < m <= t.len(),
    decreases t.len() - k,
{
    if k < 0 || k >= t.len() {
    } else if t[k] == '\\' {
        if k + 1 < t.len() {
            lemma_scan_str_bounds(t, k + 2, m);
        }
    } else if t[k] == '"' {
    } else {
        lemma_scan_str_bounds(t, k + 1, m);
    }
}

proof fn lemma_scan_comp_bounds(t: Seq<char>, k: int, depth: int, m: int)
    requires
        scan_comp(t, k, depth) == Some(m),
    ensures
        k < m <= t.len(),
    decreases t.len() - k,
{
    if k < 0 || k >= t.len() || depth <= 0 {
    } else if t[k] == '{' || t[k] == '[' {
        lemma_scan_comp_bounds(t, k + 1, depth + 1, m);
    } else if t[k] == '}' || t[k] == ']' {
        if depth != 1 {
            lemma_scan_comp_bounds(t, k + 1, depth - 1, m);
        }
    } else if t[k] == '"' {
        match scan_str(t, k + 1) {
            Some(j) => {
                if k < j && j <= t.len() {
                    lemma_scan_comp_bounds(t, j, depth, m);
                }
            },
            None => {},
        }
    } else {
        lemma_scan_comp_bounds(t, k + 1, depth, m);
    }
}

proof fn lemma_scan_scalar_bounds(t: Seq<char>, k: int, m: int)
    requires
        scan_scalar(t, k) == Some(m),
    ensures
        k <= m <= t.len() || (k >= t.len() && m == k),
    decreases t.len() - k,
{
    if k < 0 {
    } else if k >= t.len() {
    } else if is_scalar_end(t[k]) {
    } else {
        lemma_scan_scalar_bounds(t, k + 1, m);
    }
}

/// A successful scan always moves forward and stays inside the text.
pub proof fn lemma_scan_value_le(s: Seq<char>, i: int, m: int)
    requires
        0 <= i,
        scan_value(s, i) == Some(m),
    ensures
        i < m <= s.len(),
{
    if s[i] == '{' || s[i] == '[' {
        lemma_scan_comp_bounds(s, i + 1, 1, m);
    } else if s[i] == '"' {
        lemma_scan_str_bounds(s, i + 1, m);
    } else {
        lemma_scan_scalar_bounds(s, i + 1, m);
    }
}

// ---------------------------------------------------------------------
// Transport: a scan inside `t` is reproduced inside any `s` that carries
// `t` as a subrange.
// ---------------------------------------------------------------------

proof fn lemma_scan_str_transport(t: Seq<char>, s: Seq<char>, i: int, k: int, m: int)
    requires
        scan_str(t, k) == Some(m),
        0 <= i,
        i + t.len() <= s.len(),
        s.subrange(i, i + t.len()) == t,
        0 <= k,
    ensures
        scan_str(s, i + k) == Some(i + m),
    decreases t.len() - k,
{
    lemma_scan_str_bounds(t, k, m);
    lemma_subrange_index(s, i, t, k);
    if t[k] == '\\' {
        if k + 1 < t.len() {
            lemma_subrange_index(s, i, t, k + 1);
            lemma_scan_str_transport(t, s, i, k + 2, m);
        }
    } else if t[k] == '"' {
    } else {
        lemma_scan_str_transport(t, s, i, k + 1, m);
    }
}

proof fn lemma_scan_comp_transport(t: Seq<char>, s: Seq<char>, i: int, k: int, depth: int, m: int)
    requires
        scan_comp(t, k, depth) == Some(m),
        0 <= i,
        i + t.len() <= s.len(),
        s.subrange(i, i + t.len()) == t,
        0 <= k,
    ensures
        scan_comp(s, i + k, depth) == Some(i + m),
    decreases t.len() - k,
{
    lemma_scan_comp_bounds(t, k, depth, m);
    lemma_subrange_index(s, i, t, k);
    if t[k] == '{' || t[k] == '[' {
        lemma_scan_comp_transport(t, s, i, k + 1, depth + 1, m);
    } else if t[k] == '}' || t[k] == ']' {
        if depth != 1 {
            lemma_scan_comp_transport(t, s, i, k + 1, depth - 1, m);
        }
    } else if t[k] == '"' {
        let j = scan_str(t, k + 1)->Some_0;
        lemma_scan_str_bounds(t, k + 1, j);
        lemma_scan_str_transport(t, s, i, k + 1, j);
        lemma_scan_comp_transport(t, s, i, j, depth, m);
    } else {
        lemma_scan_comp_transport(t, s, i, k + 1, depth, m);
    }
}

proof fn lemma_scan_scalar_transport(t: Seq<char>, s: Seq<char>, i: int, k: int, m: int)
    requires
        scan_scalar(t, k) == Some(m),
        0 <= i,
        i + t.len() <= s.len(),
        s.subrange(i, i + t.len()) == t,
        0 <= k <= t.len(),
        m == t.len() ==> i + m == s.len() || (i + m < s.len() && is_scalar_end(s[i + m])),
    ensures
        scan_scalar(s, i + k) == Some(i + m),
    decreases t.len() - k,
{
    lemma_scan_scalar_bounds(t, k, m);
    if k >= t.len() {
    } else {
        lemma_subrange_index(s, i, t, k);
        if is_scalar_end(t[k]) {
        } else {
            lemma_scan_scalar_transport(t, s, i, k + 1, m);
        }
    }
}

/// A well-formed schema document carried inside `s` scans to exactly its
/// own end, provided a delimiter (or the end of `s`) follows it.
proof fn lemma_scan_value_transport(t: Seq<char>, s: Seq<char>, i: int)
    requires
        wf_schema(t),
        0 <= i,
        i + t.len() <= s.len(),
        s.subrange(i, i + t.len()) == t,
        i + t.len() == s.len() || is_scalar_end(s[i + t.len()]),
    ensures
        scan_value(s, i) == Some(i + t.len()),
{
    lemma_subrange_index(s, i, t, 0);
    if t[0] == '{' || t[0] == '[' {
        lemma_scan_comp_transport(t, s, i, 1, 1, t.len() as int);
    } else if t[0] == '"' {
        lemma_scan_str_transport(t, s, i, 1, t.len() as int);
    } else {
        lemma_scan_scalar_transport(t, s, i, 1, t.len() as int);
    }
}

// ---------------------------------------------------------------------
// Round trip, production by production.
// ---------------------------------------------------------------------

proof fn lemma_rt_str_body(s: Seq<char>, i: int, v: Seq<char>)
    requires
        wf_text(v),
        0 <= i,
        i + esc(v).len() + 1 <= s.len(),
        s.subrange(i, i + esc(v).len() + 1) == esc(v) + seq!['"'],
    ensures
        p_str_body(s, i) == Some((v, i + esc(v).len() + 1)),
    decreases v.len(),
{
    if v.len() == 0 {
        lemma_subrange_index(s, i, esc(v) + seq!['"'], 0);
    } else {
        let c = v[0];
        let v2 = v.drop_first();
        assert(esc(v) == esc_char(c) + esc(v2));
        assert(v2.len() < v.len());
        assert(wf_text(v2)) by {
            assert(forall|k: int| 0 <= k < v2.len() ==> v2[k] == v[k + 1]);
        }
        assert(v[0] as u32 >= 32);
        if c == '"' || c == '\\' {
            assert((esc(v) + seq!['"'])[0] == '\\');
            assert((esc(v) + seq!['"'])[1] == c);
            lemma_subrange_index(s, i, esc(v) + seq!['"'], 0);
            lemma_subrange_index(s, i, esc(v) + seq!['"'], 1);
            assert(s.subrange(i + 2, i + 2 + esc(v2).len() + 1) =~= esc(v2) + seq!['"']) by {
                assert forall|k: int| 0 <= k < esc(v2).len() + 1 implies s[i + 2 + k] == (esc(v2)
                    + seq!['"'])[k] by {
                    lemma_subrange_index(s, i, esc(v) + seq!['"'], 2 + k);
                    assert((esc(v) + seq!['"'])[2 + k] == (esc(v2) + seq!['"'])[k]);
                }
            }
            lemma_rt_str_body(s, i + 2, v2);
            assert(seq![s[i + 1]] + v2 =~= v);
        } else {
            assert((esc(v) + seq!['"'])[0] == c);
            lemma_subrange_index(s, i, esc(v) + seq!['"'], 0);
            assert(s.subrange(i + 1, i + 1 + esc(v2).len() + 1) =~= esc(v2) + seq!['"']) by {
                assert forall|k: int| 0 <= k < esc(v2).len() + 1 implies s[i + 1 + k] == (esc(v2)
                    + seq!['"'])[k] by {
                    lemma_subrange_index(s, i, esc(v) + seq!['"'], 1 + k);
                    assert((esc(v) + seq!['"'])[1 + k] == (esc(v2) + seq!['"'])[k]);
                }
            }
            lemma_rt_str_body(s, i + 1, v2);
            assert(seq![s[i]] + v2 =~= v);
        }
    }
}

proof fn lemma_rt_str(s: Seq<char>, i: int, v: Seq<char>)
    requires
        wf_text(v),
        0 <= i,
        i + enc_str(v).len() <= s.len(),
        s.subrange(i, i + enc_str(v).len()) == enc_str(v),
    ensures
        p_str(s, i) == Some((v, i + enc_str(v).len())),
{
    assert(enc_str(v) == seq!['"'] + (esc(v) + seq!['"'])) by {
        assert(seq!['"'] + esc(v) + seq!['"'] =~= seq!['"'] + (esc(v) + seq!['"']));
    }
    lemma_subrange_split(s, i, seq!['"'], esc(v) + seq!['"']);
    lemma_subrange_index(s, i, seq!['"'], 0);
    lemma_rt_str_body(s, i + 1, v);
}

proof fn lemma_rt_format(s: Seq<char>, i: int, f: FormatModel)
    requires
        wf_format(f),
        0 <= i,
        i + enc_format(f).len() <= s.len(),
        s.subrange(i, i + enc_format(f).len()) == enc_format(f),
    ensures
        p_format(s, i) == Some((f, i + enc_format(f).len())),
{
    match f {
        FormatModel::Tick => {
            reveal_strlit("\"Tick\"");
            lemma_subrange_index(s, i, enc_format(f), 0);
            lemma_subrange_index(s, i, enc_format(f), 1);
        },
        FormatModel::ConstNumber => {
            reveal_strlit("\"ConstNumber\"");
            lemma_subrange_index(s, i, enc_format(f), 0);
            lemma_subrange_index(s, i, enc_format(f), 1);
            lemma_subrange_index(s, i, enc_format(f), 6);
        },
        FormatModel::ConstString => {
            reveal_strlit("\"ConstString\"");
            lemma_subrange_index(s, i, enc_format(f), 0);
            lemma_subrange_index(s, i, enc_format(f), 1);
            lemma_subrange_index(s, i, enc_format(f), 6);
        },
        FormatModel::Json { schema } => {
            reveal_strlit("{\"Json\":");
            let lit = "{\"Json\":"@;
            assert(enc_format(f) == lit + (schema + seq!['}'])) by {
                assert(lit + schema + seq!['}'] =~= lit + (schema + seq!['}']));
            }
            lemma_subrange_split(s, i, lit, schema + seq!['}']);
            lemma_subrange_split(s, i + lit.len(), schema, seq!['}']);
            lemma_subrange_index(s, i, lit, 0);
            let j = i + lit.len();
            lemma_subrange_index(s, j + schema.len(), seq!['}'], 0);
            lemma_scan_value_transport(schema, s, j);
            assert(s.subrange(j, j + schema.len()) == schema);
        },
    }
}

proof fn lemma_rt_interface(s: Seq<char>, i: int, m: InterfaceModel)
    requires
        wf_interface(m),
        0 <= i,
        i + enc_interface(m).len() <= s.len(),
        s.subrange(i, i + enc_interface(m).len()) == enc_interface(m),
    ensures
        p_interface(s, i) == Some((m, i + enc_interface(m).len())),
{
    let l1 = "{\"name\":"@;
    let l2 = ",\"data_format\":"@;
    let a = l1;
    let b = enc_str(m.name);
    let c = l2;
    let d = enc_format(m.data_format);
    let e = seq!['}'];
    assert(enc_interface(m) == a + (b + (c + (d + e)))) by {
        assert(a + b + c + d + e =~= a + (b + (c + (d + e))));
    }
    lemma_subrange_split(s, i, a, b + (c + (d + e)));
    let i1 = i + a.len();
    lemma_subrange_split(s, i1, b, c + (d + e));
    let i2 = i1 + b.len();
    lemma_subrange_split(s, i2, c, d + e);
    let i3 = i2 + c.len();
    lemma_subrange_split(s, i3, d, e);
    let i4 = i3 + d.len();
    lemma_rt_str(s, i1, m.name);
    lemma_rt_format(s, i3, m.data_format);
    lemma_subrange_index(s, i4, e, 0);
}

proof fn lemma_rt_entry(s: Seq<char>, i: int, e: (Seq<char>, InterfaceModel))
    requires
        wf_text(e.0),
        wf_interface(e.1),
        0 <= i,
        i + enc_entry(e).len() <= s.len(),
        s.subrange(i, i + enc_entry(e).len()) == enc_entry(e),
    ensures
        p_entry(s, i) == Some((e, i + enc_entry(e).len())),
{
    let a = enc_str(e.0);
    let b = seq![':'];
    let c = enc_interface(e.1);
    assert(enc_entry(e) == a + (b + c)) by {
        assert(a + b + c =~= a + (b + c));
    }
    lemma_subrange_split(s, i, a, b + c);
    let i1 = i + a.len();
    lemma_subrange_split(s, i1, b, c);
    let i2 = i1 + b.len();
    lemma_rt_str(s, i, e.0);
    lemma_subrange_index(s, i1, b, 0);
    lemma_rt_interface(s, i2, e.1);
}

proof fn lemma_rt_entries_rest(s: Seq<char>, i: int, es: Seq<(Seq<char>, InterfaceModel)>)
    requires
        forall|k: int| 0 <= k < es.len() ==> wf_text(#[trigger] es[k].0) && wf_interface(es[k].1),
        0 <= i,
        i + enc_entries_rest(es).len() + 1 <= s.len(),
        s.subrange(i, i + enc_entries_rest(es).len() + 1) == enc_entries_rest(es) + seq!['}'],
    ensures
        p_entries_rest(s, i) == Some((es, i + enc_entries_rest(es).len() + 1)),
    decreases es.len(),
{
    if es.len() == 0 {
        lemma_subrange_index(s, i, enc_entries_rest(es) + seq!['}'], 0);
    } else {
        let e0 = es[0];
        let es2 = es.drop_first();
        let a = seq![','];
        let b = enc_entry(e0);
        let c = enc_entries_rest(es2) + seq!['}'];
        assert(enc_entries_rest(es) + seq!['}'] == a + (b + c)) by {
            assert(a + enc_entry(e0) + enc_entries_rest(es2) + seq!['}'] =~= a + (b + c));
        }
        lemma_subrange_split(s, i, a, b + c);
        let i1 = i + 1;
        lemma_subrange_split(s, i1, b, c);
        let i2 = i1 + b.len();
        lemma_subrange_index(s, i, a, 0);
        lemma_rt_entry(s, i1, e0);
        assert(enc_str(e0.0).len() >= 2);
        assert(b.len() >= 2) by {
            assert(b == enc_str(e0.0) + seq![':'] + enc_interface(e0.1));
        }
        assert(forall|k: int|
            0 <= k < es2.len() ==> wf_text(#[trigger] es2[k].0) && wf_interface(es2[k].1));
        lemma_rt_entries_rest(s, i2, es2);
        assert(seq![e0] + es2 =~= es);
    }
}

proof fn lemma_rt_table(s: Seq<char>, i: int, es: Seq<(Seq<char>, InterfaceModel)>)
    requires
        forall|k: int| 0 <= k < es.len() ==> wf_text(#[trigger] es[k].0) && wf_interface(es[k].1),
        0 <= i,
        i + enc_table(es).len() <= s.len(),
        s.subrange(i, i + enc_table(es).len()) == enc_table(es),
    ensures
        p_table(s, i) == Some((es, i + enc_table(es).len())),
{
    let a = seq!['{'];
    if es.len() == 0 {
        assert(enc_table(es) =~= seq!['{', '}']);
        lemma_subrange_index(s, i, enc_table(es), 0);
        lemma_subrange_index(s, i, enc_table(es), 1);
    } else {
        let e0 = es[0];
        let es2 = es.drop_first();
        let b = enc_entry(e0);
        let c = enc_entries_rest(es2) + seq!['}'];
        assert(enc_table(es) == a + (b + c)) by {
            assert(enc_entries(es) == enc_entry(e0) + enc_entries_rest(es2));
            assert(a + (enc_entry(e0) + enc_entries_rest(es2)) + seq!['}'] =~= a + (b + c));
        }
        lemma_subrange_split(s, i, a, b + c);
        let i1 = i + 1;
        lemma_subrange_split(s, i1, b, c);
        let i2 = i1 + b.len();
        lemma_subrange_index(s, i, a, 0);
        // The first character after `{` is the opening quote of the first
        // key, so the empty-table branch is not taken.
        assert(b[0] == '"') by {
            assert(b == enc_str(e0.0) + seq![':'] + enc_interface(e0.1));
            assert(enc_str(e0.0)[0] == '"');
        }
        lemma_subrange_index(s, i1, b, 0);
        lemma_rt_entry(s, i1, e0);
        assert(forall|k: int|
            0 <= k < es2.len() ==> wf_text(#[trigger] es2[k].0) && wf_interface(es2[k].1));
        lemma_rt_entries_rest(s, i2, es2);
        assert(seq![e0] + es2 =~= es);
    }
}

proof fn lemma_rt_fields(s: Seq<char>, i: int, d: ProgramModel)
    requires
        wf_descriptor(d),
        0 <= i,
        i + enc_fields(d).len() <= s.len(),
        s.subrange(i, i + enc_fields(d).len()) == enc_fields(d),
    ensures
        p_fields(s, i) == Some(
            ((d.human_name, d.description, d.category), i + enc_fields(d).len()),
        ),
{
    let a2 = "\"human_name\":"@;
    let a3 = enc_str(d.human_name);
    let a4 = ",\"description\":"@;
    let a5 = enc_str(d.description);
    let a6 = ",\"category\":"@;
    let a7 = enc_str(d.category);
    let y5 = a2 + a3 + a4 + a5 + a6;
    let y4 = a2 + a3 + a4 + a5;
    let y3 = a2 + a3 + a4;
    let y2 = a2 + a3;
    lemma_subrange_split(s, i, y5, a7);
    lemma_subrange_split(s, i, y4, a6);
    lemma_subrange_split(s, i, y3, a5);
    lemma_subrange_split(s, i, y2, a4);
    lemma_subrange_split(s, i, a2, a3);
    let i2 = i + a2.len();
    let i3 = i2 + a3.len();
    let i4 = i3 + a4.len();
    let i5 = i4 + a5.len();
    let i6 = i5 + a6.len();
    lemma_rt_str(s, i2, d.human_name);
    lemma_rt_str(s, i4, d.description);
    lemma_rt_str(s, i6, d.category);
}

proof fn lemma_rt_tables(s: Seq<char>, i: int, d: ProgramModel)
    requires
        wf_descriptor(d),
        0 <= i,
        i + enc_tables(d).len() <= s.len(),
        s.subrange(i, i + enc_tables(d).len()) == enc_tables(d),
    ensures
        p_tables(s, i) == Some(((d.inputs, d.outputs), i + enc_tables(d).len())),
{
    let a8 = ",\"inputs\":"@;
    let a9 = enc_table(d.inputs);
    let a10 = ",\"outputs\":"@;
    let a11 = enc_table(d.outputs);
    let a12 = seq!['}'];
    let y11 = a8 + a9 + a10 + a11;
    let y10 = a8 + a9 + a10;
    let y9 = a8 + a9;
    lemma_subrange_split(s, i, y11, a12);
    lemma_subrange_split(s, i, y10, a11);
    lemma_subrange_split(s, i, y9, a10);
    lemma_subrange_split(s, i, a8, a9);
    let i9 = i + a8.len();
    let i10 = i9 + a9.len();
    let i11 = i10 + a10.len();
    let i12 = i11 + a11.len();
    lemma_rt_table(s, i9, d.inputs);
    lemma_rt_table(s, i11, d.outputs);
    lemma_subrange_index(s, i12, a12, 0);
}

proof fn lemma_rt_descriptor(d: ProgramModel)
    requires
        wf_descriptor(d),
    ensures
        p_descriptor(enc_descriptor(d), 0) == Some((d, enc_descriptor(d).len() as int)),
{
    let s = enc_descriptor(d);
    let a1 = seq!['{'];
    let f = enc_fields(d);
    let t = enc_tables(d);
    assert(s.subrange(0, s.len() as int) =~= s);
    lemma_subrange_split(s, 0, a1 + f, t);
    lemma_subrange_split(s, 0, a1, f);
    lemma_subrange_index(s, 0, a1, 0);
    lemma_rt_fields(s, 1, d);
    lemma_rt_tables(s, 1 + f.len() as int, d);
}

/// Decoding inverts the canonical encoding: every well-formed descriptor
/// comes back from its own encoding unchanged.
pub proof fn lemma_encode_decode(d: ProgramModel)
    requires
        wf_descriptor(d),
    ensures
        decode_spec(enc_descriptor(d)) == Some(d),
{
    lemma_rt_descriptor(d);
}

} // verus!
