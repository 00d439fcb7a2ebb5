//! The executable decoder for the canonical descriptor encoding. Each
//! function computes exactly what its spec-level counterpart in `codec`
//! denotes.

use vstd::prelude::*;

use crate::codec::{
    decode_spec, is_scalar_end, p_entries_rest, p_entry, p_fields, p_format, p_interface, p_lit,
    p_str, p_str_body, p_table, p_tables, p_descriptor, scan_comp, scan_scalar, scan_str,
    scan_value,
};
use crate::descriptor::{
    distinct_keys, entries_view, entry_view, DataFormat, Interface, ProgramInfo,
};
use crate::sys;

verus! {

fn d_lit(s: &Vec<char>, i: usize, lit: &Vec<char>) -> (r: Option<usize>)
    ensures
        match r {
            Some(j) => p_lit(s@, i as int, lit@) == Some(j as int),
            None => p_lit(s@, i as int, lit@) is None,
        },
{
    if i > s.len() || s.len() - i < lit.len() {
        return None;
    }
    let mut k: usize = 0;
    while k < lit.len()
        invariant
            i + lit@.len() <= s.len(),
            k <= lit@.len(),
            forall|m: int| 0 <= m < k ==> s@[i + m] == lit@[m],
        decreases lit@.len() - k,
    {
        if s[i + k] != lit[k] {
            proof {
                if p_lit(s@, i as int, lit@) is Some {
                    assert(s@.subrange(i as int, i + lit@.len())[k as int] == s@[i + k]);
                }
            }
            return None;
        }
        k += 1;
    }
    proof {
        assert(s@.subrange(i as int, i + lit@.len()) =~= lit@);
    }
    Some(i + lit.len())
}

fn d_str_body(s: &Vec<char>, i: usize) -> (r: Option<(Vec<char>, usize)>)
    ensures
        match r {
            Some(p) => p_str_body(s@, i as int) == Some((p.0@, p.1 as int)),
            None => p_str_body(s@, i as int) is None,
        },
    decreases s@.len() - i,
{
    if i >= s.len() {
        return None;
    }
    let c = s[i];
    if c == '"' {
        return Some((Vec::new(), i + 1));
    }
    if c == '\\' {
        if i + 1 < s.len() && (s[i + 1] == '"' || s[i + 1] == '\\') {
            match d_str_body(s, i + 2) {
                Some((t, j)) => {
                    let mut t2 = t;
                    t2.insert(0, s[i + 1]);
                    proof {
                        assert(t2@ =~= seq![s@[i + 1]] + t2@.drop_first());
                    }
                    Some((t2, j))
                },
                None => None,
            }
        } else {
            None
        }
    } else if (c as u32) >= 32 {
        match d_str_body(s, i + 1) {
            Some((t, j)) => {
                let mut t2 = t;
                t2.insert(0, c);
                proof {
                    assert(t2@ =~= seq![s@[i as int]] + t2@.drop_first());
                }
                Some((t2, j))
            },
            None => None,
        }
    } else {
        None
    }
}

fn d_str(s: &Vec<char>, i: usize) -> (r: Option<(Vec<char>, usize)>)
    ensures
        match r {
            Some(p) => p_str(s@, i as int) == Some((p.0@, p.1 as int)),
            None => p_str(s@, i as int) is None,
        },
{
    if i < s.len() && s[i] == '"' {
        d_str_body(s, i + 1)
    } else {
        None
    }
}

fn scalar_end(c: char) -> (b: bool)
    ensures
        b == is_scalar_end(c),
{
    c == ',' || c == '}' || c == ']' || c == '"' || c == '{' || c == '[' || c == ':'
}

fn d_scan_str(s: &Vec<char>, i: usize) -> (r: Option<usize>)
    ensures
        match r {
            Some(j) => scan_str(s@, i as int) == Some(j as int),
            None => scan_str(s@, i as int) is None,
        },
    decreases s@.len() - i,
{
    if i >= s.len() {
        None
    } else if s[i] == '\\' {
        if i + 1 < s.len() {
            d_scan_str(s, i + 2)
        } else {
            None
        }
    } else if s[i] == '"' {
        Some(i + 1)
    } else {
        d_scan_str(s, i + 1)
    }
}

fn d_scan_comp(s: &Vec<char>, i: usize, depth: usize) -> (r: Option<usize>)
    requires
        depth <= i,
    ensures
        match r {
            Some(j) => scan_comp(s@, i as int, depth as int) == Some(j as int),
            None => scan_comp(s@, i as int, depth as int) is None,
        },
    decreases s@.len() - i,
{
    if i >= s.len() || depth == 0 {
        return None;
    }
    let c = s[i];
    if c == '{' || c == '[' {
        d_scan_comp(s, i + 1, depth + 1)
    } else if c == '}' || c == ']' {
        if depth == 1 {
            Some(i + 1)
        } else {
            d_scan_comp(s, i + 1, depth - 1)
        }
    } else if c == '"' {
        match d_scan_str(s, i + 1) {
            Some(j) => {
                if i < j && j <= s.len() {
                    d_scan_comp(s, j, depth)
                } else {
                    None
                }
            },
            None => None,
        }
    } else {
        d_scan_comp(s, i + 1, depth)
    }
}

fn d_scan_scalar(s: &Vec<char>, i: usize) -> (r: Option<usize>)
    ensures
        match r {
            Some(j) => scan_scalar(s@, i as int) == Some(j as int),
            None => scan_scalar(s@, i as int) is None,
        },
    decreases s@.len() - i,
{
    if i >= s.len() {
        Some(i)
    } else if scalar_end(s[i]) {
        Some(i)
    } else {
        d_scan_scalar(s, i + 1)
    }
}

fn d_scan_value(s: &Vec<char>, i: usize) -> (r: Option<usize>)
    ensures
        match r {
            Some(j) => scan_value(s@, i as int) == Some(j as int),
            None => scan_value(s@, i as int) is None,
        },
{
    if i >= s.len() {
        return None;
    }
    let c = s[i];
    if c == '{' || c == '[' {
        d_scan_comp(s, i + 1, 1)
    } else if c == '"' {
        d_scan_str(s, i + 1)
    } else if scalar_end(c) {
        None
    } else {
        d_scan_scalar(s, i + 1)
    }
}

/// One copied stretch of the input.
fn copy_range(s: &Vec<char>, a: usize, b: usize) -> (r: Vec<char>)
    requires
        a <= b,
        b <= s@.len(),
    ensures
        r@ == s@.subrange(a as int, b as int),
{
    let mut out: Vec<char> = Vec::new();
    let mut k: usize = a;
    while k < b
        invariant
            a <= k <= b,
            b <= s@.len(),
            out@ == s@.subrange(a as int, k as int),
        decreases b - k,
    {
        out.push(s[k]);
        proof {
            assert(s@.subrange(a as int, k + 1 as int) =~= s@.subrange(a as int, k as int).push(
                s@[k as int],
            ));
        }
        k += 1;
    }
    out
}

fn d_format(s: &Vec<char>, i: usize) -> (r: Option<(DataFormat, usize)>)
    ensures
        match r {
            Some(p) => p_format(s@, i as int) == Some((p.0@, p.1 as int)),
            None => p_format(s@, i as int) is None,
        },
{
    if i >= s.len() {
        return None;
    }
    let c = s[i];
    if c == '{' {
        let lit = sys::chars_of("{\"Json\":");
        match d_lit(s, i, &lit) {
            Some(j) => match d_scan_value(s, j) {
                Some(k) => {
                    if k < s.len() && s[k] == '}' {
                        proof {
                            crate::codec_proofs::lemma_scan_value_le(s@, j as int, k as int);
                        }
                        let schema = copy_range(s, j, k);
                        let txt = sys::string_from_chars(&schema);
                        Some((DataFormat::Json(txt), k + 1))
                    } else {
                        None
                    }
                },
                None => None,
            },
            None => None,
        }
    } else if c == '"' && i + 1 < s.len() {
        if s[i + 1] == 'T' {
            let lit = sys::chars_of("\"Tick\"");
            match d_lit(s, i, &lit) {
                Some(j) => Some((DataFormat::Tick, j)),
                None => None,
            }
        } else if s.len() - i > 6 && s[i + 6] == 'N' {
            let lit = sys::chars_of("\"ConstNumber\"");
            match d_lit(s, i, &lit) {
                Some(j) => Some((DataFormat::ConstNumber, j)),
                None => None,
            }
        } else if s.len() - i > 6 && s[i + 6] == 'S' {
            let lit = sys::chars_of("\"ConstString\"");
            match d_lit(s, i, &lit) {
                Some(j) => Some((DataFormat::ConstString, j)),
                None => None,
            }
        } else {
            None
        }
    } else {
        None
    }
}

fn d_interface(s: &Vec<char>, i: usize) -> (r: Option<(Interface, usize)>)
    ensures
        match r {
            Some(p) => p_interface(s@, i as int) == Some((p.0@, p.1 as int)),
            None => p_interface(s@, i as int) is None,
        },
{
    let l1 = sys::chars_of("{\"name\":");
    match d_lit(s, i, &l1) {
        Some(j) => match d_str(s, j) {
            Some((namev, k)) => {
                let l2 = sys::chars_of(",\"data_format\":");
                match d_lit(s, k, &l2) {
                    Some(l) => match d_format(s, l) {
                        Some((f, m)) => {
                            if m < s.len() && s[m] == '}' {
                                let name = sys::string_from_chars(&namev);
                                Some((Interface { name, data_format: f }, m + 1))
                            } else {
                                None
                            }
                        },
                        None => None,
                    },
                    None => None,
                }
            },
            None => None,
        },
        None => None,
    }
}

fn d_entry(s: &Vec<char>, i: usize) -> (r: Option<((String, Interface), usize)>)
    ensures
        match r {
            Some(p) => p_entry(s@, i as int) == Some((entry_view(p.0), p.1 as int)),
            None => p_entry(s@, i as int) is None,
        },
{
    match d_str(s, i) {
        Some((keyv, j)) => {
            if j < s.len() && s[j] == ':' {
                match d_interface(s, j + 1) {
                    Some((m, k)) => {
                        let key = sys::string_from_chars(&keyv);
                        Some(((key, m), k))
                    },
                    None => None,
                }
            } else {
                None
            }
        },
        None => None,
    }
}

fn d_entries_rest(s: &Vec<char>, i: usize) -> (r: Option<(Vec<(String, Interface)>, usize)>)
    ensures
        match r {
            Some(p) => p_entries_rest(s@, i as int) == Some((entries_view(p.0@), p.1 as int)),
            None => p_entries_rest(s@, i as int) is None,
        },
    decreases s@.len() - i,
{
    if i >= s.len() {
        return None;
    }
    let c = s[i];
    if c == '}' {
        let empty: Vec<(String, Interface)> = Vec::new();
        proof {
            assert(entries_view(empty@) =~= Seq::empty());
        }
        Some((empty, i + 1))
    } else if c == ',' {
        match d_entry(s, i + 1) {
            Some((e, j)) => {
                if i + 1 < j && j <= s.len() {
                    match d_entries_rest(s, j) {
                        Some((es, k)) => {
                            let ghost tail = es@;
                            let mut es2 = es;
                            es2.insert(0, e);
                            proof {
                                assert(entries_view(es2@) =~= seq![entry_view(e)] + entries_view(
                                    tail,
                                )) by {
                                    assert forall|m: int|
                                        0 <= m < es2@.len() implies entries_view(es2@)[m] == (
                                    seq![entry_view(e)] + entries_view(tail))[m] by {
                                        if m > 0 {
                                            assert(es2@[m] == tail[m - 1]);
                                        }
                                    }
                                }
                            }
                            Some((es2, k))
                        },
                        None => None,
                    }
                } else {
                    None
                }
            },
            None => None,
        }
    } else {
        None
    }
}

fn d_table(s: &Vec<char>, i: usize) -> (r: Option<(Vec<(String, Interface)>, usize)>)
    ensures
        match r {
            Some(p) => p_table(s@, i as int) == Some((entries_view(p.0@), p.1 as int)),
            None => p_table(s@, i as int) is None,
        },
{
    if i < s.len() && i + 1 < s.len() && s[i] == '{' {
        if s[i + 1] == '}' {
            let empty: Vec<(String, Interface)> = Vec::new();
            proof {
                assert(entries_view(empty@) =~= Seq::empty());
            }
            Some((empty, i + 2))
        } else {
            match d_entry(s, i + 1) {
                Some((e, j)) => match d_entries_rest(s, j) {
                    Some((es, k)) => {
                        let ghost tail = es@;
                        let mut es2 = es;
                        es2.insert(0, e);
                        proof {
                            assert(entries_view(es2@) =~= seq![entry_view(e)] + entries_view(
                                tail,
                            )) by {
                                assert forall|m: int|
                                    0 <= m < es2@.len() implies entries_view(es2@)[m] == (
                                seq![entry_view(e)] + entries_view(tail))[m] by {
                                    if m > 0 {
                                        assert(es2@[m] == tail[m - 1]);
                                    }
                                }
                            }
                        }
                        Some((es2, k))
                    },
                    None => None,
                },
                None => None,
            }
        }
    } else {
        None
    }
}

fn d_fields(s: &Vec<char>, i: usize) -> (r: Option<((String, String, String), usize)>)
    ensures
        match r {
            Some(p) => p_fields(s@, i as int) == Some(((p.0.0@, p.0.1@, p.0.2@), p.1 as int)),
            None => p_fields(s@, i as int) is None,
        },
{
    let l1 = sys::chars_of("\"human_name\":");
    match d_lit(s, i, &l1) {
        Some(j0) => match d_str(s, j0) {
            Some((hn, j1)) => {
                let l2 = sys::chars_of(",\"description\":");
                match d_lit(s, j1, &l2) {
                    Some(j2) => match d_str(s, j2) {
                        Some((de, j3)) => {
                            let l3 = sys::chars_of(",\"category\":");
                            match d_lit(s, j3, &l3) {
                                Some(j4) => match d_str(s, j4) {
                                    Some((ca, j5)) => Some(
                                        (
                                            (
                                                sys::string_from_chars(&hn),
                                                sys::string_from_chars(&de),
                                                sys::string_from_chars(&ca),
                                            ),
                                            j5,
                                        ),
                                    ),
                                    None => None,
                                },
                                None => None,
                            }
                        },
                        None => None,
                    },
                    None => None,
                }
            },
            None => None,
        },
        None => None,
    }
}

fn d_tables(s: &Vec<char>, i: usize) -> (r: Option<
    ((Vec<(String, Interface)>, Vec<(String, Interface)>), usize),
>)
    ensures
        match r {
            Some(p) => p_tables(s@, i as int) == Some(
                ((entries_view(p.0.0@), entries_view(p.0.1@)), p.1 as int),
            ),
            None => p_tables(s@, i as int) is None,
        },
{
    let l1 = sys::chars_of(",\"inputs\":");
    match d_lit(s, i, &l1) {
        Some(j0) => match d_table(s, j0) {
            Some((ins, j1)) => {
                let l2 = sys::chars_of(",\"outputs\":");
                match d_lit(s, j1, &l2) {
                    Some(j2) => match d_table(s, j2) {
                        Some((outs, j3)) => {
                            if j3 < s.len() && s[j3] == '}' {
                                Some(((ins, outs), j3 + 1))
                            } else {
                                None
                            }
                        },
                        None => None,
                    },
                    None => None,
                }
            },
            None => None,
        },
        None => None,
    }
}

fn d_descriptor(s: &Vec<char>, i: usize) -> (r: Option<(ProgramInfo, usize)>)
    ensures
        match r {
            Some(p) => p_descriptor(s@, i as int) == Some((p.0@, p.1 as int)),
            None => p_descriptor(s@, i as int) is None,
        },
{
    if i < s.len() && s[i] == '{' {
        match d_fields(s, i + 1) {
            Some(((hn, de, ca), j)) => match d_tables(s, j) {
                Some(((ins, outs), k)) => {
                    let info = ProgramInfo {
                        human_name: hn,
                        description: de,
                        category: ca,
                        inputs: ins,
                        outputs: outs,
                    };
                    proof {
                        assert(p_descriptor(s@, i as int) == Some((info@, k as int)));
                    }
                    Some((info, k))
                },
                None => None,
            },
            None => None,
        }
    } else {
        None
    }
}

/// Whether an interface table's keys are pairwise distinct.
fn check_distinct(entries: &Vec<(String, Interface)>) -> (r: bool)
    ensures
        r == distinct_keys(entries_view(entries@)),
{
    let n = entries.len();
    let mut a: usize = 0;
    while a < n
        invariant
            n == entries@.len(),
            a <= n,
            forall|x: int, y: int|
                0 <= x < y < n && x < a ==> entries_view(entries@)[x].0 != entries_view(
                    entries@,
                )[y].0,
        decreases n - a,
    {
        let mut b: usize = a + 1;
        while b < n
            invariant
                n == entries@.len(),
                a < n,
                a + 1 <= b <= n,
                forall|x: int, y: int|
                    0 <= x < y < n && x < a ==> entries_view(entries@)[x].0 != entries_view(
                        entries@,
                    )[y].0,
                forall|y: int|
                    a < y < b ==> entries_view(entries@)[a as int].0 != entries_view(
                        entries@,
                    )[y].0,
            decreases n - b,
        {
            if entries[a].0 == entries[b].0 {
                proof {
                    assert(entries_view(entries@)[a as int].0 == entries_view(entries@)[
                    b as int].0);
                }
                return false;
            }
            b += 1;
        }
        a += 1;
    }
    true
}

/// Decodes canonical descriptor text; yields the descriptor exactly when
/// the text is one whole canonical descriptor with unique keys.
pub fn decode_descriptor(text: &str) -> (r: Option<ProgramInfo>)
    ensures
        match r {
            Some(info) => decode_spec(text@) == Some(info@),
            None => decode_spec(text@) is None,
        },
{
    let s = sys::chars_of(text);
    match d_descriptor(&s, 0) {
        Some((info, n)) => {
            if n == s.len() && check_distinct(&info.inputs) && check_distinct(&info.outputs) {
                Some(info)
            } else {
                None
            }
        },
        None => None,
    }
}

} // verus!
