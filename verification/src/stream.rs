//! Streaming extraction: a single left-to-right pass over the document
//! text that keeps only the running maximum — constant extra space in the
//! length of the array — plus a full parse that materializes the array.
//! Both are verified against the grammar `doc_values`: whitespace-
//! flexible, either member order, the `id` string validated structurally
//! and otherwise ignored.

use vstd::prelude::*;

use crate::ExtractError;
use crate::digits::digit_val;
use crate::doc::{
    after_id_string, after_key, after_values_array, doc_values, end_object, is_hex_digit, is_ws,
    skip_ws, spec_elems, spec_scan, spec_scan_from, spec_string_end,
};
use crate::values::{max_u64, seq_max};
use vstd::string::StrSliceExecFns;

verus! {

/// `o` with the already-read elements `vals` put back in front.
pub open spec fn with_elems(vals: Seq<u64>, o: Option<(Seq<u64>, int)>) -> Option<
    (Seq<u64>, int),
> {
    match o {
        None => None,
        Some((rest, e)) => Some((vals + rest, e)),
    }
}

/// Whether the text `s` of length `n` holds exactly `lit` at position `at`.
fn match_lit(s: &str, n: usize, at: usize, lit: &str) -> (b: bool)
    requires
        n == s@.len(),
        at <= n,
    ensures
        b <==> (at + lit@.len() <= n && s@.subrange(at as int, at as int + lit@.len() as int)
            == lit@),
{
    let llen = lit.unicode_len();
    if llen > n - at {
        return false;
    }
    let mut i: usize = 0;
    while i < llen
        invariant
            i <= llen,
            llen == lit@.len(),
            n == s@.len(),
            at + llen <= n,
            forall|j: int| 0 <= j < i ==> s@[at + j] == lit@[j],
        decreases llen - i,
    {
        let a = s.get_char(at + i);
        let b = lit.get_char(i);
        if a != b {
            proof {
                if s@.subrange(at as int, at as int + lit@.len() as int) == lit@ {
                    assert(s@.subrange(at as int, at as int + lit@.len() as int)[i as int]
                        == s@[at + i]);
                }
            }
            return false;
        }
        i = i + 1;
    }
    proof {
        assert(s@.subrange(at as int, at as int + lit@.len() as int) =~= lit@);
    }
    true
}

/// Advances over whitespace, exactly as `skip_ws` does.
fn skip_ws_exec(s: &str, n: usize, pos: usize) -> (r: usize)
    requires
        n == s@.len(),
        pos <= n,
    ensures
        pos <= r <= n,
        r as int == skip_ws(s@, pos as int),
{
    let mut i = pos;
    loop
        invariant_except_break
            pos <= i <= n,
            n == s@.len(),
            skip_ws(s@, pos as int) == skip_ws(s@, i as int),
        ensures
            pos <= i <= n,
            skip_ws(s@, pos as int) == i as int,
        decreases n - i,
    {
        if i >= n {
            break;
        }
        let c = s.get_char(i);
        if !(c == ' ' || c == '\n' || c == '\r' || c == '\t') {
            proof {
                assert(!is_ws(s@[i as int]));
            }
            break;
        }
        i = i + 1;
    }
    i
}

/// Whether `c` is a hexadecimal digit.
fn is_hex_exec(c: char) -> (b: bool)
    ensures
        b == is_hex_digit(c),
{
    (c >= '0' && c <= '9') || (c >= 'a' && c <= 'f') || (c >= 'A' && c <= 'F')
}

/// Reads a JSON string body from `pos` (just after the opening quote),
/// exactly as `spec_string_end` does.
fn string_end_exec(s: &str, n: usize, pos: usize) -> (r: Option<usize>)
    requires
        n == s@.len(),
        pos <= n,
    ensures
        (match r {
            Some(e) => e <= n && spec_string_end(s@, pos as int) == Some(e as int),
            None => spec_string_end(s@, pos as int) is None,
        }),
{
    let mut i = pos;
    loop
        invariant
            pos <= i <= n,
            n == s@.len(),
            spec_string_end(s@, pos as int) == spec_string_end(s@, i as int),
        decreases n - i,
    {
        if i >= n {
            return None;
        }
        let c = s.get_char(i);
        if c == '"' {
            return Some(i + 1);
        }
        if c == '\\' {
            if n - i >= 2 {
                let e = s.get_char(i + 1);
                if e == '"' || e == '\\' || e == '/' || e == 'b' || e == 'f' || e == 'n'
                    || e == 'r' || e == 't' {
                    i = i + 2;
                    continue;
                }
                if e == 'u' && n - i >= 6 {
                    let h2 = is_hex_exec(s.get_char(i + 2));
                    let h3 = is_hex_exec(s.get_char(i + 3));
                    let h4 = is_hex_exec(s.get_char(i + 4));
                    let h5 = is_hex_exec(s.get_char(i + 5));
                    if h2 && h3 && h4 && h5 {
                        i = i + 6;
                        continue;
                    }
                }
            }
            return None;
        }
        if (c as u32) < 32 {
            return None;
        }
        i = i + 1;
    }
}

/// Reads one decimal literal at `start`, exactly as `spec_scan` does.
fn scan_u64(s: &str, n: usize, start: usize) -> (r: Option<(u64, usize)>)
    requires
        n == s@.len(),
        start <= n,
    ensures
        (match r {
            Some((m, end)) => start < end <= n && spec_scan(s@, start as int) == Some(
                (m, end as int),
            ),
            None => spec_scan(s@, start as int) is None,
        }),
{
    if start >= n {
        return None;
    }
    let c0 = s.get_char(start);
    if !(c0 >= '0' && c0 <= '9') {
        return None;
    }
    if c0 == '0' {
        if start + 1 < n {
            let c1 = s.get_char(start + 1);
            if c1 >= '0' && c1 <= '9' {
                return None;
            }
        }
        return Some((0, start + 1));
    }
    let d0 = (c0 as u64) - 48;
    proof {
        assert(digit_val(s@[start as int]) == d0);
        assert(spec_scan_from(s@, start as int, 0u64) == spec_scan_from(s@, start + 1, d0));
    }
    let mut acc: u64 = d0;
    let mut pos: usize = start + 1;
    loop
        invariant_except_break
            start < pos <= n,
            n == s@.len(),
            spec_scan(s@, start as int) == spec_scan_from(s@, pos as int, acc),
        ensures
            start < pos <= n,
            spec_scan(s@, start as int) == Some((acc, pos as int)),
        decreases n - pos,
    {
        if pos >= n {
            break;
        }
        let c = s.get_char(pos);
        if !(c >= '0' && c <= '9') {
            break;
        }
        let d = (c as u64) - 48;
        proof {
            assert(digit_val(s@[pos as int]) == d);
        }
        let t = match acc.checked_mul(10) {
            Some(t) => t,
            None => {
                return None;
            },
        };
        let a2 = match t.checked_add(d) {
            Some(a) => a,
            None => {
                return None;
            },
        };
        acc = a2;
        pos = pos + 1;
    }
    Some((acc, pos))
}

/// Expects the quoted key `qkey` at `pos`, then a colon, exactly as
/// `after_key` does.
fn after_key_exec(s: &str, n: usize, pos: usize, qkey: &str) -> (r: Option<usize>)
    requires
        n == s@.len(),
        pos <= n,
    ensures
        (match r {
            Some(p) => p <= n && after_key(s@, pos as int, qkey@) == Some(p as int),
            None => after_key(s@, pos as int, qkey@) is None,
        }),
{
    let klen = qkey.unicode_len();
    if !match_lit(s, n, pos, qkey) {
        return None;
    }
    let p = skip_ws_exec(s, n, pos + klen);
    if p < n && s.get_char(p) == ':' {
        Some(skip_ws_exec(s, n, p + 1))
    } else {
        None
    }
}

/// Expects a JSON string at `pos`, exactly as `after_id_string` does.
fn id_string_end_exec(s: &str, n: usize, pos: usize) -> (r: Option<usize>)
    requires
        n == s@.len(),
        pos <= n,
    ensures
        (match r {
            Some(e) => e <= n && after_id_string(s@, pos as int) == Some(e as int),
            None => after_id_string(s@, pos as int) is None,
        }),
{
    if pos >= n || s.get_char(pos) != '"' {
        return None;
    }
    string_end_exec(s, n, pos + 1)
}

/// Whether only the closing brace and whitespace remain from `pos`.
fn end_object_exec(s: &str, n: usize, pos: usize) -> (b: bool)
    requires
        n == s@.len(),
        pos <= n,
    ensures
        b == end_object(s@, pos as int),
{
    let p = skip_ws_exec(s, n, pos);
    if p < n && s.get_char(p) == '}' {
        let q = skip_ws_exec(s, n, p + 1);
        q == n
    } else {
        false
    }
}

/// Reads the `values` array at `apos` in one streaming pass, keeping only
/// the running maximum: no value of the array is retained.  Yields that
/// maximum (nothing for an empty array) and the position after the
/// closing bracket, exactly as `after_values_array` describes the array.
fn array_max_exec(s: &str, n: usize, apos: usize) -> (r: Option<(Option<u64>, usize)>)
    requires
        n == s@.len(),
        apos <= n,
    ensures
        (match after_values_array(s@, apos as int) {
            Some((v, e)) => r matches Some((mo, end)) && end as int == e && end <= n && (if v.len()
                == 0 {
                mo is None
            } else {
                mo == Some(seq_max(v))
            }),
            None => r is None,
        }),
{
    if apos >= n || s.get_char(apos) != '[' {
        return None;
    }
    let p_start = skip_ws_exec(s, n, apos + 1);
    if p_start < n && s.get_char(p_start) == ']' {
        return Some((None, p_start + 1));
    }
    proof {
        assert(after_values_array(s@, apos as int) == spec_elems(s@, p_start as int));
        if spec_elems(s@, p_start as int) is Some {
            assert(Seq::<u64>::empty() + spec_elems(s@, p_start as int)->Some_0.0 =~= spec_elems(
                s@,
                p_start as int,
            )->Some_0.0);
        }
    }
    let mut pos = p_start;
    let mut cur: u64 = 0;
    let mut first = true;
    let ghost mut vals: Seq<u64> = Seq::empty();
    loop
        invariant
            pos <= n,
            n == s@.len(),
            apos <= n,
            after_values_array(s@, apos as int) == with_elems(vals, spec_elems(s@, pos as int)),
            first <==> vals.len() == 0,
            vals.len() > 0 ==> cur == seq_max(vals),
        decreases n - pos,
    {
        let scanned = scan_u64(s, n, pos);
        let (m, p2) = match scanned {
            None => {
                return None;
            },
            Some(t) => t,
        };
        let ghost old_vals = vals;
        let ghost old_pos = pos as int;
        if first {
            cur = m;
            first = false;
        } else if m > cur {
            cur = m;
        }
        proof {
            vals = vals.push(m);
            assert(vals.drop_last() =~= old_vals);
            assert(vals.last() == m);
            if old_vals.len() > 0 {
                assert(seq_max(vals) == max_u64(seq_max(old_vals), m));
            }
            assert(cur == seq_max(vals));
        }
        let p3 = skip_ws_exec(s, n, p2);
        if p3 < n && s.get_char(p3) == ',' {
            let p4 = skip_ws_exec(s, n, p3 + 1);
            proof {
                assert(spec_elems(s@, old_pos) == (match spec_elems(s@, p4 as int) {
                    None => None::<(Seq<u64>, int)>,
                    Some((rest, e)) => Some((seq![m] + rest, e)),
                }));
                if spec_elems(s@, p4 as int) is Some {
                    let rest = spec_elems(s@, p4 as int)->Some_0.0;
                    assert(old_vals + (seq![m] + rest) =~= vals + rest);
                }
            }
            pos = p4;
            continue;
        }
        if p3 < n && s.get_char(p3) == ']' {
            proof {
                assert(spec_elems(s@, old_pos) == Some((seq![m], (p3 + 1) as int)));
                assert(old_vals + seq![m] =~= vals);
            }
            return Some((Some(cur), p3 + 1));
        }
        proof {
            assert(spec_elems(s@, old_pos) is None);
        }
        return None;
    }
}

/// Reads the `values` array at `apos` into a vector, exactly as
/// `after_values_array` describes it.
fn array_vec_exec(s: &str, n: usize, apos: usize) -> (r: Option<(Vec<u64>, usize)>)
    requires
        n == s@.len(),
        apos <= n,
    ensures
        (match after_values_array(s@, apos as int) {
            Some((v, e)) => r matches Some((u, end)) && u@ == v && end as int == e && end <= n,
            None => r is None,
        }),
{
    if apos >= n || s.get_char(apos) != '[' {
        return None;
    }
    let p_start = skip_ws_exec(s, n, apos + 1);
    if p_start < n && s.get_char(p_start) == ']' {
        return Some((Vec::new(), p_start + 1));
    }
    proof {
        assert(after_values_array(s@, apos as int) == spec_elems(s@, p_start as int));
        if spec_elems(s@, p_start as int) is Some {
            assert(Seq::<u64>::empty() + spec_elems(s@, p_start as int)->Some_0.0 =~= spec_elems(
                s@,
                p_start as int,
            )->Some_0.0);
        }
    }
    let mut pos = p_start;
    let mut out: Vec<u64> = Vec::new();
    loop
        invariant
            pos <= n,
            n == s@.len(),
            apos <= n,
            after_values_array(s@, apos as int) == with_elems(out@, spec_elems(s@, pos as int)),
        decreases n - pos,
    {
        let scanned = scan_u64(s, n, pos);
        let (m, p2) = match scanned {
            None => {
                return None;
            },
            Some(t) => t,
        };
        let ghost old_vals = out@;
        let ghost old_pos = pos as int;
        out.push(m);
        let p3 = skip_ws_exec(s, n, p2);
        if p3 < n && s.get_char(p3) == ',' {
            let p4 = skip_ws_exec(s, n, p3 + 1);
            proof {
                assert(spec_elems(s@, old_pos) == (match spec_elems(s@, p4 as int) {
                    None => None::<(Seq<u64>, int)>,
                    Some((rest, e)) => Some((seq![m] + rest, e)),
                }));
                if spec_elems(s@, p4 as int) is Some {
                    let rest = spec_elems(s@, p4 as int)->Some_0.0;
                    assert(old_vals + (seq![m] + rest) =~= out@ + rest);
                }
            }
            pos = p4;
            continue;
        }
        if p3 < n && s.get_char(p3) == ']' {
            proof {
                assert(spec_elems(s@, old_pos) == Some((seq![m], (p3 + 1) as int)));
                assert(old_vals + seq![m] =~= out@);
            }
            return Some((out, p3 + 1));
        }
        proof {
            assert(spec_elems(s@, old_pos) is None);
        }
        return None;
    }
}

/// The maximum of the document's `values` array, computed in one streaming
/// pass that never stores more than the running maximum.  Yields the
/// dedicated "no values" error on a document whose array is empty, and a
/// malformed-document error on any text outside the grammar — which,
/// unlike the whole-document path, requires exactly the two members of
/// the schema and no others.
pub fn streaming_max(json: &str) -> (r: Result<u64, ExtractError>)
    ensures
        (match doc_values(json@) {
            Some(v) => if v.len() == 0 {
                r == Err::<u64, ExtractError>(ExtractError::NoValues)
            } else {
                r == Ok::<u64, ExtractError>(seq_max(v))
            },
            None => r == Err::<u64, ExtractError>(ExtractError::Malformed),
        }),
{
    let n = json.unicode_len();
    let p0 = skip_ws_exec(json, n, 0);
    if p0 >= n || json.get_char(p0) != '{' {
        return Err(ExtractError::Malformed);
    }
    let p1 = skip_ws_exec(json, n, p0 + 1);
    match after_key_exec(json, n, p1, "\"id\"") {
        Some(p2) => {
            let p3 = match id_string_end_exec(json, n, p2) {
                None => {
                    return Err(ExtractError::Malformed);
                },
                Some(p) => p,
            };
            let p4 = skip_ws_exec(json, n, p3);
            if p4 >= n || json.get_char(p4) != ',' {
                return Err(ExtractError::Malformed);
            }
            let pk = skip_ws_exec(json, n, p4 + 1);
            let p5 = match after_key_exec(json, n, pk, "\"values\"") {
                None => {
                    return Err(ExtractError::Malformed);
                },
                Some(p) => p,
            };
            let (mo, p6) = match array_max_exec(json, n, p5) {
                None => {
                    return Err(ExtractError::Malformed);
                },
                Some(t) => t,
            };
            if !end_object_exec(json, n, p6) {
                return Err(ExtractError::Malformed);
            }
            match mo {
                None => Err(ExtractError::NoValues),
                Some(m) => Ok(m),
            }
        },
        None => {
            let p5 = match after_key_exec(json, n, p1, "\"values\"") {
                None => {
                    return Err(ExtractError::Malformed);
                },
                Some(p) => p,
            };
            let (mo, p6) = match array_max_exec(json, n, p5) {
                None => {
                    return Err(ExtractError::Malformed);
                },
                Some(t) => t,
            };
            let p7 = skip_ws_exec(json, n, p6);
            if p7 >= n || json.get_char(p7) != ',' {
                return Err(ExtractError::Malformed);
            }
            let pk = skip_ws_exec(json, n, p7 + 1);
            let p2 = match after_key_exec(json, n, pk, "\"id\"") {
                None => {
                    return Err(ExtractError::Malformed);
                },
                Some(p) => p,
            };
            let p3 = match id_string_end_exec(json, n, p2) {
                None => {
                    return Err(ExtractError::Malformed);
                },
                Some(p) => p,
            };
            if !end_object_exec(json, n, p3) {
                return Err(ExtractError::Malformed);
            }
            match mo {
                None => Err(ExtractError::NoValues),
                Some(m) => Ok(m),
            }
        },
    }
}

/// The document's whole `values` array.  Yields a malformed-document error
/// on any text outside the grammar; an empty array parses to an empty
/// vector.
pub fn parse_values(json: &str) -> (r: Result<Vec<u64>, ExtractError>)
    ensures
        (match doc_values(json@) {
            Some(v) => r matches Ok(u) && u@ == v,
            None => r == Err::<Vec<u64>, ExtractError>(ExtractError::Malformed),
        }),
{
    let n = json.unicode_len();
    let p0 = skip_ws_exec(json, n, 0);
    if p0 >= n || json.get_char(p0) != '{' {
        return Err(ExtractError::Malformed);
    }
    let p1 = skip_ws_exec(json, n, p0 + 1);
    match after_key_exec(json, n, p1, "\"id\"") {
        Some(p2) => {
            let p3 = match id_string_end_exec(json, n, p2) {
                None => {
                    return Err(ExtractError::Malformed);
                },
                Some(p) => p,
            };
            let p4 = skip_ws_exec(json, n, p3);
            if p4 >= n || json.get_char(p4) != ',' {
                return Err(ExtractError::Malformed);
            }
            let pk = skip_ws_exec(json, n, p4 + 1);
            let p5 = match after_key_exec(json, n, pk, "\"values\"") {
                None => {
                    return Err(ExtractError::Malformed);
                },
                Some(p) => p,
            };
            let (u, p6) = match array_vec_exec(json, n, p5) {
                None => {
                    return Err(ExtractError::Malformed);
                },
                Some(t) => t,
            };
            if !end_object_exec(json, n, p6) {
                return Err(ExtractError::Malformed);
            }
            Ok(u)
        },
        None => {
            let p5 = match after_key_exec(json, n, p1, "\"values\"") {
                None => {
                    return Err(ExtractError::Malformed);
                },
                Some(p) => p,
            };
            let (u, p6) = match array_vec_exec(json, n, p5) {
                None => {
                    return Err(ExtractError::Malformed);
                },
                Some(t) => t,
            };
            let p7 = skip_ws_exec(json, n, p6);
            if p7 >= n || json.get_char(p7) != ',' {
                return Err(ExtractError::Malformed);
            }
            let pk = skip_ws_exec(json, n, p7 + 1);
            let p2 = match after_key_exec(json, n, pk, "\"id\"") {
                None => {
                    return Err(ExtractError::Malformed);
                },
                Some(p) => p,
            };
            let p3 = match id_string_end_exec(json, n, p2) {
                None => {
                    return Err(ExtractError::Malformed);
                },
                Some(p) => p,
            };
            if !end_object_exec(json, n, p3) {
                return Err(ExtractError::Malformed);
            }
            Ok(u)
        },
    }
}

} // verus!
