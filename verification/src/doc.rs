//! The document format: a JSON object holding an `id` string and a
//! `values` array of unsigned 64-bit integers.  `doc_values` is the
//! grammar: it allows JSON whitespace anywhere whitespace may stand,
//! either order of the two members, and escaped string content in `id`
//! (whose value is validated structurally and otherwise ignored), and it
//! rejects raw control characters.  `render` is the exact text the
//! payload generator emits; the round-trip lemma makes the two agree.

use vstd::prelude::*;

use crate::digits::{
    all_digits, dec_digits, dec_value, digit_val, is_digit, lemma_dec_digits_form,
    lemma_dec_value_of_digits, lemma_dec_value_take_mono, lemma_dec_value_take_step, push_dec,
};

verus! {

// ---------------------------------------------------------------------
// The generator's template
// ---------------------------------------------------------------------

/// The generated text up to and including the opening of the `values`
/// array.
pub open spec fn pre_text() -> Seq<char> {
    "{\n        \"id\": \"demo-deserialize-max\",\n        \"values\": [\n            "@
}

/// The generated separator between consecutive array elements.
pub open spec fn sep_text() -> Seq<char> {
    ",\n"@
}

/// The generated text after the last array element.
pub open spec fn post_text() -> Seq<char> {
    "\n        ]\n    }"@
}

/// The opening template as a string slice.
pub fn pre_str() -> (r: &'static str)
    ensures
        r@ == pre_text(),
{
    "{\n        \"id\": \"demo-deserialize-max\",\n        \"values\": [\n            "
}

/// The element separator as a string slice.
pub fn sep_str() -> (r: &'static str)
    ensures
        r@ == sep_text(),
{
    ",\n"
}

/// The closing template as a string slice.
pub fn post_str() -> (r: &'static str)
    ensures
        r@ == post_text(),
{
    "\n        ]\n    }"
}

/// The array elements rendered in decimal and joined by the separator.
pub open spec fn join_vals(v: Seq<u64>) -> Seq<char>
    decreases v.len(),
{
    if v.len() == 0 {
        Seq::empty()
    } else if v.len() == 1 {
        dec_digits(v[0] as nat)
    } else {
        dec_digits(v[0] as nat) + sep_text() + join_vals(v.drop_first())
    }
}

/// The full generated document text for the value sequence `v`.
pub open spec fn render(v: Seq<u64>) -> Seq<char> {
    pre_text() + join_vals(v) + post_text()
}

// ---------------------------------------------------------------------
// The grammar
// ---------------------------------------------------------------------

/// A JSON whitespace character.
pub open spec fn is_ws(c: char) -> bool {
    c == ' ' || c == '\n' || c == '\r' || c == '\t'
}

/// The first position at or after `pos` that does not hold whitespace.
pub open spec fn skip_ws(s: Seq<char>, pos: int) -> int
    decreases s.len() - pos,
{
    if 0 <= pos < s.len() && is_ws(s[pos]) {
        skip_ws(s, pos + 1)
    } else {
        pos
    }
}

/// A character that may follow a backslash in a JSON string.
pub open spec fn is_simple_escape(c: char) -> bool {
    c == '"' || c == '\\' || c == '/' || c == 'b' || c == 'f' || c == 'n' || c == 'r' || c == 't'
}

/// A hexadecimal digit.
pub open spec fn is_hex_digit(c: char) -> bool {
    ('0' <= c && c <= '9') || ('a' <= c && c <= 'f') || ('A' <= c && c <= 'F')
}

/// Reads a JSON string body from `pos` (just after the opening quote):
/// plain characters, the simple escapes, and `\u` with four hex digits;
/// raw control characters are rejected.  Yields the position after the
/// closing quote.
pub open spec fn spec_string_end(s: Seq<char>, pos: int) -> Option<int>
    decreases s.len() - pos,
{
    if !(0 <= pos < s.len()) {
        None
    } else if s[pos] == '"' {
        Some(pos + 1)
    } else if s[pos] == '\\' {
        if pos + 2 <= s.len() && is_simple_escape(s[pos + 1]) {
            spec_string_end(s, pos + 2)
        } else if pos + 6 <= s.len() && s[pos + 1] == 'u' && is_hex_digit(s[pos + 2])
            && is_hex_digit(s[pos + 3]) && is_hex_digit(s[pos + 4]) && is_hex_digit(s[pos + 5]) {
            spec_string_end(s, pos + 6)
        } else {
            None
        }
    } else if (s[pos] as int) < 32 {
        None
    } else {
        spec_string_end(s, pos + 1)
    }
}

/// Reads a digit run left to right starting from `acc`, returning the value
/// and the position after the run, or nothing if the value would not fit
/// in 64 bits.
pub open spec fn spec_scan_from(s: Seq<char>, pos: int, acc: u64) -> Option<(u64, int)>
    decreases s.len() - pos,
{
    if !(0 <= pos <= s.len()) {
        None
    } else if pos == s.len() || !is_digit(s[pos]) {
        Some((acc, pos))
    } else if (acc as int) * 10 + (digit_val(s[pos]) as int) > (u64::MAX as int) {
        None
    } else {
        spec_scan_from(s, pos + 1, ((acc as int) * 10 + (digit_val(s[pos]) as int)) as u64)
    }
}

/// Reads one JSON unsigned integer at `pos`: a digit run without leading
/// zeros whose value fits in 64 bits.
pub open spec fn spec_scan(s: Seq<char>, pos: int) -> Option<(u64, int)> {
    if 0 <= pos < s.len() && is_digit(s[pos]) {
        if s[pos] == '0' {
            if pos + 1 < s.len() && is_digit(s[pos + 1]) {
                None
            } else {
                Some((0u64, pos + 1))
            }
        } else {
            spec_scan_from(s, pos, 0u64)
        }
    } else {
        None
    }
}

/// Reads the non-empty element list starting at `pos` (the first element's
/// first digit): each element is followed, after whitespace, by a comma
/// and more elements or by the closing bracket.  Yields the elements and
/// the position after the bracket.
pub open spec fn spec_elems(s: Seq<char>, pos: int) -> Option<(Seq<u64>, int)>
    decreases s.len() - pos,
{
    match spec_scan(s, pos) {
        None => None,
        Some((m, p2)) => {
            if !(pos < p2 <= s.len()) {
                None
            } else {
                let p3 = skip_ws(s, p2);
                if p3 < s.len() && s[p3] == ',' {
                    let p4 = skip_ws(s, p3 + 1);
                    if p2 <= p3 && p3 + 1 <= p4 <= s.len() {
                        match spec_elems(s, p4) {
                            None => None,
                            Some((rest, e)) => Some((seq![m] + rest, e)),
                        }
                    } else {
                        None
                    }
                } else if p3 < s.len() && s[p3] == ']' {
                    Some((seq![m], p3 + 1))
                } else {
                    None
                }
            }
        },
    }
}

/// The `id` member's key, quotes included.
pub open spec fn id_key() -> Seq<char> {
    "\"id\""@
}

/// The `values` member's key, quotes included.
pub open spec fn values_key() -> Seq<char> {
    "\"values\""@
}

/// Expects the quoted key `qkey` at `pos`, then whitespace, a colon and
/// whitespace; yields the position after them.
pub open spec fn after_key(s: Seq<char>, pos: int, qkey: Seq<char>) -> Option<int> {
    if pos >= 0 && pos + qkey.len() <= s.len() && s.subrange(pos, pos + qkey.len() as int)
        == qkey {
        let p = skip_ws(s, pos + qkey.len() as int);
        if p < s.len() && s[p] == ':' {
            Some(skip_ws(s, p + 1))
        } else {
            None
        }
    } else {
        None
    }
}

/// Expects a JSON string at `pos`; yields the position after its closing
/// quote.
pub open spec fn after_id_string(s: Seq<char>, pos: int) -> Option<int> {
    if 0 <= pos < s.len() && s[pos] == '"' {
        spec_string_end(s, pos + 1)
    } else {
        None
    }
}

/// Expects the `values` array at `pos`; yields its elements and the
/// position after the closing bracket.
pub open spec fn after_values_array(s: Seq<char>, pos: int) -> Option<(Seq<u64>, int)> {
    if 0 <= pos < s.len() && s[pos] == '[' {
        let p = skip_ws(s, pos + 1);
        if p < s.len() && s[p] == ']' {
            Some((Seq::empty(), p + 1))
        } else {
            spec_elems(s, p)
        }
    } else {
        None
    }
}

/// Whether only the closing brace and whitespace remain from `pos` to the
/// end of the text.
pub open spec fn end_object(s: Seq<char>, pos: int) -> bool {
    let p = skip_ws(s, pos);
    &&& p < s.len()
    &&& s[p] == '}'
    &&& skip_ws(s, p + 1) == s.len()
}

/// The value sequence of the document text `s`, or nothing if `s` is not
/// a document of this grammar: an object holding exactly the members
/// `id` (a string, validated structurally and otherwise ignored) and
/// `values` (an array of unsigned 64-bit integers), in either order,
/// with JSON whitespace anywhere between tokens.
pub open spec fn doc_values(s: Seq<char>) -> Option<Seq<u64>> {
    let p0 = skip_ws(s, 0);
    if p0 < s.len() && s[p0] == '{' {
        let p1 = skip_ws(s, p0 + 1);
        match after_key(s, p1, id_key()) {
            Some(p2) => match after_id_string(s, p2) {
                None => None,
                Some(p3) => {
                    let p4 = skip_ws(s, p3);
                    if p4 < s.len() && s[p4] == ',' {
                        match after_key(s, skip_ws(s, p4 + 1), values_key()) {
                            None => None,
                            Some(p5) => match after_values_array(s, p5) {
                                None => None,
                                Some((v, p6)) => if end_object(s, p6) {
                                    Some(v)
                                } else {
                                    None
                                },
                            },
                        }
                    } else {
                        None
                    }
                },
            },
            None => match after_key(s, p1, values_key()) {
                None => None,
                Some(p5) => match after_values_array(s, p5) {
                    None => None,
                    Some((v, p6)) => {
                        let p7 = skip_ws(s, p6);
                        if p7 < s.len() && s[p7] == ',' {
                            match after_key(s, skip_ws(s, p7 + 1), id_key()) {
                                None => None,
                                Some(p2) => match after_id_string(s, p2) {
                                    None => None,
                                    Some(p3) => if end_object(s, p3) {
                                        Some(v)
                                    } else {
                                        None
                                    },
                                },
                            }
                        } else {
                            None
                        }
                    },
                },
            },
        }
    } else {
        None
    }
}


// ---------------------------------------------------------------------
// Scanning lemmas
// ---------------------------------------------------------------------

/// Scanning a text that holds the digit run `d` at `pos`, with the run
/// already read up to index `i`, finishes the run and yields its value.
proof fn lemma_scan_from_digits(s: Seq<char>, pos: int, d: Seq<char>, i: int)
    requires
        all_digits(d),
        d.len() >= 1,
        dec_value(d) <= u64::MAX,
        0 <= pos,
        pos + d.len() <= s.len(),
        s.subrange(pos, pos + d.len() as int) == d,
        pos + d.len() == s.len() || !is_digit(s[pos + d.len()]),
        0 <= i <= d.len(),
    ensures
        spec_scan_from(s, pos + i, dec_value(d.take(i)) as u64) == Some(
            (dec_value(d) as u64, pos + d.len() as int),
        ),
    decreases d.len() - i,
{
    lemma_dec_value_take_mono(d, i);
    if i == d.len() {
        assert(d.take(i) =~= d);
        assert(pos + i == s.len() || !is_digit(s[pos + i]));
    } else {
        assert(s[pos + i] == d[i]) by {
            assert(s.subrange(pos, pos + d.len() as int)[i] == s[pos + i]);
        }
        assert(is_digit(d[i]));
        lemma_dec_value_take_step(d, i);
        lemma_dec_value_take_mono(d, i + 1);
        let acc = dec_value(d.take(i));
        assert((acc as int) * 10 + (digit_val(d[i]) as int) == dec_value(d.take(i + 1)));
        lemma_scan_from_digits(s, pos, d, i + 1);
    }
}

/// Scanning at the start of the canonical rendering of `m`, followed by a
/// non-digit or the end of the text, yields `m`.
proof fn lemma_scan_token(s: Seq<char>, pos: int, m: u64)
    requires
        0 <= pos,
        pos + dec_digits(m as nat).len() <= s.len(),
        s.subrange(pos, pos + dec_digits(m as nat).len() as int) == dec_digits(m as nat),
        pos + dec_digits(m as nat).len() == s.len() || !is_digit(
            s[pos + dec_digits(m as nat).len()],
        ),
    ensures
        spec_scan(s, pos) == Some((m, pos + dec_digits(m as nat).len() as int)),
{
    let d = dec_digits(m as nat);
    lemma_dec_digits_form(m as nat);
    lemma_dec_value_of_digits(m as nat);
    assert(s[pos] == d[0]) by {
        assert(s.subrange(pos, pos + d.len() as int)[0] == s[pos]);
    }
    if m == 0 {
        assert(d == seq!['0']);
        assert(s[pos] == '0');
    } else {
        assert(s[pos] != '0');
        assert(d.take(0) =~= Seq::<char>::empty());
        lemma_scan_from_digits(s, pos, d, 0);
    }
}

/// A non-empty value list renders to text that starts with a digit.
proof fn lemma_join_head_digit(v: Seq<u64>)
    requires
        v.len() >= 1,
    ensures
        join_vals(v).len() >= 1,
        join_vals(v)[0] == dec_digits(v[0] as nat)[0],
        is_digit(join_vals(v)[0]),
{
    lemma_dec_digits_form(v[0] as nat);
    if v.len() == 1 {
    } else {
        assert(join_vals(v) == dec_digits(v[0] as nat) + sep_text() + join_vals(v.drop_first()));
    }
}

/// Reading the element list of a rendered non-empty value sequence yields
/// that sequence, ending just after the closing bracket of the template.
proof fn lemma_elems_of_join(s: Seq<char>, pos: int, v: Seq<u64>)
    requires
        v.len() >= 1,
        0 <= pos,
        pos + join_vals(v).len() + post_text().len() == s.len(),
        s.subrange(pos, s.len() as int) == join_vals(v) + post_text(),
    ensures
        spec_elems(s, pos) == Some((v, pos + join_vals(v).len() + 10)),
    decreases v.len(),
{
    reveal_strlit("\n        ]\n    }");
    reveal_strlit(",\n");
    let d = dec_digits(v[0] as nat);
    lemma_dec_digits_form(v[0] as nat);
    let k = d.len() as int;
    if v.len() == 1 {
        assert(join_vals(v) == d);
        assert(s.subrange(pos, pos + k) =~= d);
        let p2 = pos + k;
        assert forall|j: int| #![trigger s[p2 + j]] 0 <= j < 16 implies s[p2 + j] == post_text()[j] by {
            assert(s.subrange(pos, s.len() as int)[k + j] == s[p2 + j]);
            assert((join_vals(v) + post_text())[k + j] == post_text()[j]);
        }
        assert(s[p2] == post_text()[0]) by {
            assert(s[p2 + 0] == post_text()[0]);
        }
        assert(!is_digit(s[p2]));
        lemma_scan_token(s, pos, v[0]);
        assert(!is_ws(s[p2 + 9]));
        assert(skip_ws(s, p2 + 9) == p2 + 9);
        assert(skip_ws(s, p2 + 8) == p2 + 9);
        assert(skip_ws(s, p2 + 7) == p2 + 9);
        assert(skip_ws(s, p2 + 6) == p2 + 9);
        assert(skip_ws(s, p2 + 5) == p2 + 9);
        assert(skip_ws(s, p2 + 4) == p2 + 9);
        assert(skip_ws(s, p2 + 3) == p2 + 9);
        assert(skip_ws(s, p2 + 2) == p2 + 9);
        assert(skip_ws(s, p2 + 1) == p2 + 9);
        assert(skip_ws(s, p2) == p2 + 9);
        assert(s[p2 + 9] == ']');
        assert(s[p2 + 9] != ',');
        assert(seq![v[0]] =~= v);
    } else {
        let rest = v.drop_first();
        assert(join_vals(v) == d + sep_text() + join_vals(rest));
        let p2 = pos + k;
        assert(s[p2] == ',') by {
            assert(s.subrange(pos, s.len() as int)[k] == s[p2]);
            assert((join_vals(v) + post_text())[k] == sep_text()[0]);
        }
        assert(s[p2 + 1] == '\n') by {
            assert(s.subrange(pos, s.len() as int)[k + 1] == s[p2 + 1]);
            assert((join_vals(v) + post_text())[k + 1] == sep_text()[1]);
        }
        assert(!is_digit(s[p2]));
        assert(s.subrange(pos, pos + k) =~= d) by {
            assert forall|i: int| 0 <= i < k implies s.subrange(pos, pos + k)[i] == d[i] by {
                assert(s.subrange(pos, s.len() as int)[i] == s[pos + i]);
                assert((join_vals(v) + post_text())[i] == d[i]);
            }
        }
        lemma_scan_token(s, pos, v[0]);
        let tail = join_vals(rest) + post_text();
        assert(join_vals(v) + post_text() =~= (d + sep_text()) + tail);
        assert forall|j: int| #![trigger s[p2 + 2 + j]] 0 <= j < tail.len() implies s[p2 + 2 + j] == tail[j] by {
            assert(s.subrange(pos, s.len() as int)[k + 2 + j] == s[p2 + 2 + j]);
            assert(((d + sep_text()) + tail)[k + 2 + j] == tail[j]);
        }
        lemma_join_head_digit(rest);
        assert(is_digit(s[p2 + 2])) by {
            assert(s[p2 + 2 + 0] == tail[0]);
            assert(tail[0] == join_vals(rest)[0]);
        }
        assert(skip_ws(s, p2) == p2);
        assert(skip_ws(s, p2 + 2) == p2 + 2);
        assert(skip_ws(s, p2 + 1) == p2 + 2);
        assert(s.subrange(p2 + 2, s.len() as int) =~= tail) by {
            assert forall|j: int| 0 <= j < tail.len() implies s.subrange(
                p2 + 2,
                s.len() as int,
            )[j] == tail[j] by {
                assert(s[p2 + 2 + j] == tail[j]);
            }
        }
        lemma_elems_of_join(s, p2 + 2, rest);
        assert(seq![v[0]] + rest =~= v);
    }
}

/// Reading back a rendered document yields exactly the value sequence it
/// was rendered from: the grammar and the renderer agree.
pub proof fn lemma_doc_values_of_render(v: Seq<u64>)
    ensures
        doc_values(render(v)) == Some(v),
{
    reveal_strlit("{\n        \"id\": \"demo-deserialize-max\",\n        \"values\": [\n            ");
    reveal_strlit("\n        ]\n    }");
    reveal_strlit("\"id\"");
    reveal_strlit("\"values\"");
    let s = render(v);
    let jj = join_vals(v).len() as int;
    let b = 72 + jj;
    assert(pre_text().len() == 72);
    assert(post_text().len() == 16);
    assert(s.len() == b + 16);
    assert(forall|j: int| 0 <= j < 72 ==> #[trigger] s[j] == pre_text()[j]);
    assert forall|j: int| #![trigger s[b + j]] 0 <= j < 16 implies s[b + j] == post_text()[j] by {
        assert((pre_text() + join_vals(v) + post_text())[b + j] == post_text()[j]);
    }
    // the object brace and the whitespace to the id key
    assert(!is_ws(s[0]));
    assert(skip_ws(s, 0) == 0);
    assert(s[0] == '{');
    assert(!is_ws(s[10]));
    assert(skip_ws(s, 10) == 10);
    assert(skip_ws(s, 9) == 10);
    assert(skip_ws(s, 8) == 10);
    assert(skip_ws(s, 7) == 10);
    assert(skip_ws(s, 6) == 10);
    assert(skip_ws(s, 5) == 10);
    assert(skip_ws(s, 4) == 10);
    assert(skip_ws(s, 3) == 10);
    assert(skip_ws(s, 2) == 10);
    assert(skip_ws(s, 1) == 10);
    // the id key, colon, and opening quote
    assert(s.subrange(10, 14) =~= id_key()) by {
        assert forall|i: int| 0 <= i < 4 implies s.subrange(10, 14)[i] == id_key()[i] by {
            if i == 0 {
            } else if i == 1 {
            } else if i == 2 {
            } else {
            }
        }
    }
    assert(skip_ws(s, 14) == 14);
    assert(s[14] == ':');
    assert(skip_ws(s, 16) == 16);
    assert(skip_ws(s, 15) == 16);
    assert(s[16] == '\"');
    // the id string body runs to its closing quote
    assert(spec_string_end(s, 37) == Some(38int));
    assert(spec_string_end(s, 36) == Some(38int));
    assert(spec_string_end(s, 35) == Some(38int));
    assert(spec_string_end(s, 34) == Some(38int));
    assert(spec_string_end(s, 33) == Some(38int));
    assert(spec_string_end(s, 32) == Some(38int));
    assert(spec_string_end(s, 31) == Some(38int));
    assert(spec_string_end(s, 30) == Some(38int));
    assert(spec_string_end(s, 29) == Some(38int));
    assert(spec_string_end(s, 28) == Some(38int));
    assert(spec_string_end(s, 27) == Some(38int));
    assert(spec_string_end(s, 26) == Some(38int));
    assert(spec_string_end(s, 25) == Some(38int));
    assert(spec_string_end(s, 24) == Some(38int));
    assert(spec_string_end(s, 23) == Some(38int));
    assert(spec_string_end(s, 22) == Some(38int));
    assert(spec_string_end(s, 21) == Some(38int));
    assert(spec_string_end(s, 20) == Some(38int));
    assert(spec_string_end(s, 19) == Some(38int));
    assert(spec_string_end(s, 18) == Some(38int));
    assert(spec_string_end(s, 17) == Some(38int));
    // the comma and the whitespace to the values key
    assert(skip_ws(s, 38) == 38);
    assert(s[38] == ',');
    assert(skip_ws(s, 48) == 48);
    assert(skip_ws(s, 47) == 48);
    assert(skip_ws(s, 46) == 48);
    assert(skip_ws(s, 45) == 48);
    assert(skip_ws(s, 44) == 48);
    assert(skip_ws(s, 43) == 48);
    assert(skip_ws(s, 42) == 48);
    assert(skip_ws(s, 41) == 48);
    assert(skip_ws(s, 40) == 48);
    assert(skip_ws(s, 39) == 48);
    assert(s.subrange(48, 56) =~= values_key()) by {
        assert forall|i: int| 0 <= i < 8 implies s.subrange(48, 56)[i] == values_key()[i] by {
            if i == 0 {
            } else if i == 1 {
            } else if i == 2 {
            } else if i == 3 {
            } else if i == 4 {
            } else if i == 5 {
            } else if i == 6 {
            } else {
            }
        }
    }
    assert(skip_ws(s, 56) == 56);
    assert(s[56] == ':');
    assert(skip_ws(s, 58) == 58);
    assert(skip_ws(s, 57) == 58);
    assert(s[58] == '[');
    if v.len() == 0 {
        // whitespace runs from inside the bracket to the closing bracket
        assert(jj == 0);
        assert(!is_ws(s[81]));
        assert(skip_ws(s, 81) == 81);
        assert(skip_ws(s, 80) == 81);
        assert(skip_ws(s, 79) == 81);
        assert(skip_ws(s, 78) == 81);
        assert(skip_ws(s, 77) == 81);
        assert(skip_ws(s, 76) == 81);
        assert(skip_ws(s, 75) == 81);
        assert(skip_ws(s, 74) == 81);
        assert(skip_ws(s, 73) == 81);
        assert(skip_ws(s, 72) == 81);
        assert(skip_ws(s, 71) == 81);
        assert(skip_ws(s, 70) == 81);
        assert(skip_ws(s, 69) == 81);
        assert(skip_ws(s, 68) == 81);
        assert(skip_ws(s, 67) == 81);
        assert(skip_ws(s, 66) == 81);
        assert(skip_ws(s, 65) == 81);
        assert(skip_ws(s, 64) == 81);
        assert(skip_ws(s, 63) == 81);
        assert(skip_ws(s, 62) == 81);
        assert(skip_ws(s, 61) == 81);
        assert(skip_ws(s, 60) == 81);
        assert(skip_ws(s, 59) == 81);
        assert(s[81] == ']');
        // only the closing brace remains
        assert(!is_ws(s[87]));
        assert(skip_ws(s, 87) == 87);
        assert(skip_ws(s, 86) == 87);
        assert(skip_ws(s, 85) == 87);
        assert(skip_ws(s, 84) == 87);
        assert(skip_ws(s, 83) == 87);
        assert(skip_ws(s, 82) == 87);
        assert(s[87] == '}');
        assert(skip_ws(s, 88) == 88);
        assert(end_object(s, 82));
        assert(v =~= Seq::<u64>::empty());
    } else {
        lemma_join_head_digit(v);
        assert(s[72] == join_vals(v)[0]) by {
            assert((pre_text() + join_vals(v) + post_text())[72] == join_vals(v)[0]);
        }
        assert(is_digit(s[72]));
        assert(!is_ws(s[72]));
        assert(skip_ws(s, 72) == 72);
        assert(skip_ws(s, 71) == 72);
        assert(skip_ws(s, 70) == 72);
        assert(skip_ws(s, 69) == 72);
        assert(skip_ws(s, 68) == 72);
        assert(skip_ws(s, 67) == 72);
        assert(skip_ws(s, 66) == 72);
        assert(skip_ws(s, 65) == 72);
        assert(skip_ws(s, 64) == 72);
        assert(skip_ws(s, 63) == 72);
        assert(skip_ws(s, 62) == 72);
        assert(skip_ws(s, 61) == 72);
        assert(skip_ws(s, 60) == 72);
        assert(skip_ws(s, 59) == 72);
        assert(s.subrange(72, s.len() as int) =~= join_vals(v) + post_text()) by {
            assert forall|j: int| 0 <= j < jj + 16 implies s[72 + j] == (join_vals(v)
                + post_text())[j] by {
                assert((pre_text() + join_vals(v) + post_text())[72 + j] == (join_vals(v)
                    + post_text())[j]);
            }
        }
        lemma_elems_of_join(s, 72, v);
        // only the closing brace remains after the bracket
        assert(!is_ws(s[b + 15]));
        assert(skip_ws(s, b + 15) == b + 15);
        assert(skip_ws(s, b + 14) == b + 15);
        assert(skip_ws(s, b + 13) == b + 15);
        assert(skip_ws(s, b + 12) == b + 15);
        assert(skip_ws(s, b + 11) == b + 15);
        assert(skip_ws(s, b + 10) == b + 15);
        assert(s[b + 15] == '}');
        assert(skip_ws(s, b + 16) == b + 16);
        assert(end_object(s, b + 10));
    }
}

/// No two value sequences render to the same document text.
pub proof fn lemma_render_injective(v: Seq<u64>, w: Seq<u64>)
    requires
        render(v) == render(w),
    ensures
        v == w,
{
    lemma_doc_values_of_render(v);
    lemma_doc_values_of_render(w);
}

// ---------------------------------------------------------------------
// The payload generator
// ---------------------------------------------------------------------

/// Appending one element to the list appends its rendering, after a
/// separator unless the list was empty.
proof fn lemma_join_snoc(u: Seq<u64>, x: u64)
    ensures
        join_vals(u.push(x)) == (if u.len() == 0 {
            dec_digits(x as nat)
        } else {
            join_vals(u) + sep_text() + dec_digits(x as nat)
        }),
    decreases u.len(),
{
    let w = u.push(x);
    if u.len() == 0 {
        assert(w.len() == 1);
        assert(w[0] == x);
    } else if u.len() == 1 {
        assert(w.len() == 2);
        assert(w[0] == u[0]);
        assert(w.drop_first() =~= seq![x]);
        assert(join_vals(seq![x]) == dec_digits(x as nat));
        assert(join_vals(w) == dec_digits(u[0] as nat) + sep_text() + dec_digits(x as nat));
    } else {
        assert(w[0] == u[0]);
        assert(w.drop_first() =~= u.drop_first().push(x));
        lemma_join_snoc(u.drop_first(), x);
        assert(join_vals(w) =~= join_vals(u) + sep_text() + dec_digits(x as nat));
    }
}

/// The document text for the given values, in the generator's shape.
pub fn render_document(values: &Vec<u64>) -> (r: String)
    ensures
        r@ == render(values@),
{
    let mut out = String::new();
    out.append(pre_str());
    proof {
        assert(values@.take(0) =~= Seq::<u64>::empty());
        assert(out@ =~= pre_text() + join_vals(values@.take(0)));
    }
    let n = values.len();
    let mut i: usize = 0;
    while i < n
        invariant
            i <= n,
            n == values@.len(),
            out@ == pre_text() + join_vals(values@.take(i as int)),
        decreases n - i,
    {
        if i > 0 {
            out.append(sep_str());
        }
        push_dec(&mut out, values[i]);
        proof {
            assert(values@.take(i as int).push(values@[i as int]) =~= values@.take(i + 1));
            lemma_join_snoc(values@.take(i as int), values@[i as int]);
            assert(out@ =~= pre_text() + join_vals(values@.take(i + 1)));
        }
        i = i + 1;
    }
    out.append(post_str());
    proof {
        assert(values@.take(n as int) =~= values@);
        assert(out@ =~= render(values@));
    }
    out
}

/// Relies on `rand::random`: draws one `u64` from the thread-local
/// generator; nothing is assumed about the value drawn.
#[verifier::external_body]
fn random_u64() -> u64 {
    rand::random()
}

/// A synthetic document whose `values` array holds one element fewer than
/// the requested size, each drawn at random.  A requested size of one (or
/// zero) yields the document with an empty array.
pub fn make_json(json_size: usize) -> (r: String)
    ensures
        exists|v: Seq<u64>|
            r@ == render(v) && v.len() == (if json_size == 0 {
                0int
            } else {
                json_size - 1
            }),
        json_size <= 1 ==> r@ == render(Seq::<u64>::empty()),
{
    let count: usize = if json_size == 0 {
        0
    } else {
        json_size - 1
    };
    let mut values: Vec<u64> = Vec::new();
    while values.len() < count
        invariant
            values@.len() <= count,
        decreases count - values@.len(),
    {
        values.push(random_u64());
    }
    let r = render_document(&values);
    proof {
        if json_size <= 1 {
            assert(values@ =~= Seq::<u64>::empty());
        }
    }
    r
}

} // verus!
