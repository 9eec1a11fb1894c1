//! Byte-span access to template source text.
use vstd::prelude::*;
use vstd::string::{StrSliceExecFns, StringSliceAdditionalSpecFns};
use vstd::utf8::{decode_utf8, encode_utf8_decode_utf8, is_char_boundary};

verus! {

/// The bytes of `source` in the byte range `start..end`.
pub open spec fn span_bytes(source: &str, start: int, end: int) -> Seq<u8> {
    source.spec_bytes().subrange(start, end)
}

/// The characters of `source` in the byte range `start..end`.
pub open spec fn span_text(source: &str, start: int, end: int) -> Seq<char> {
    decode_utf8(span_bytes(source, start, end))
}

/// The characters of a string are the decoding of its bytes.
pub proof fn lemma_text_of_bytes(s: &str)
    ensures
        decode_utf8(s.spec_bytes()) == s@,
{
    encode_utf8_decode_utf8(s@);
}

/// Whether `start..end` lies within `source` and both ends fall on
/// character boundaries, so that slicing the source there succeeds.
pub open spec fn valid_span(source: &str, start: int, end: int) -> bool {
    &&& 0 <= start <= end <= source.spec_bytes().len()
    &&& is_char_boundary(source.spec_bytes(), start)
    &&& is_char_boundary(source.spec_bytes(), end)
}

/// Slice `source` by the byte range `start..end` (std's `Index<Range<usize>>`
/// for `str`). The std documentation states that this panics unless the
/// range is in bounds and both ends are character boundaries, and that the
/// result is the substring made of exactly those bytes.
#[verifier::external_body]
pub(crate) fn slice<'a>(source: &'a str, start: usize, end: usize) -> (res: &'a str)
    requires
        valid_span(source, start as int, end as int),
    ensures
        res.spec_bytes() == span_bytes(source, start as int, end as int),
{
    &source[start..end]
}

/// String equality (std's `PartialEq` for `str`), which compares the
/// underlying bytes.
#[verifier::external_body]
pub(crate) fn str_eq(a: &str, b: &str) -> (res: bool)
    ensures
        res == (a.spec_bytes() == b.spec_bytes()),
{
    a == b
}

/// Slice `source` by the byte range `start..end`, giving both the bytes and
/// the characters of the result.
pub fn slice_span<'a>(source: &'a str, start: usize, end: usize) -> (res: &'a str)
    requires
        valid_span(source, start as int, end as int),
    ensures
        res.spec_bytes() == span_bytes(source, start as int, end as int),
        res@ == span_text(source, start as int, end as int),
{
    let res = slice(source, start, end);
    proof {
        lemma_text_of_bytes(res);
    }
    res
}

/// Replace, from left to right, every occurrence of a backslash followed by
/// `c` with `d` (what `str::replace` does with the two-character pattern).
pub open spec fn replace_escape_spec(s: Seq<char>, c: char, d: char) -> Seq<char>
    decreases s.len(),
{
    if s.len() == 0 {
        s
    } else if s.len() >= 2 && s[0] == '\\' && s[1] == c {
        seq![d] + replace_escape_spec(s.skip(2), c, d)
    } else {
        seq![s[0]] + replace_escape_spec(s.skip(1), c, d)
    }
}

/// Append a character to a string (std's `String::push`).
#[verifier::external_body]
pub(crate) fn push_char(s: &mut String, ch: char)
    ensures
        final(s)@ == old(s)@.push(ch),
{
    s.push(ch);
}

/// Append a string slice to a string (std's `String::push_str`).
#[verifier::external_body]
pub(crate) fn push_str(s: &mut String, t: &str)
    ensures
        final(s)@ == old(s)@ + t@,
{
    s.push_str(t);
}

/// Replace every backslash followed by `c` in `s` with `d`.
pub fn replace_escape(s: &str, c: char, d: char) -> (res: String)
    requires
        c != '\\',
    ensures
        res@ == replace_escape_spec(s@, c, d),
{
    let n = s.unicode_len();
    let mut out = String::new();
    let mut pending = false;
    let mut i: usize = 0;
    assert(s@.skip(0) =~= s@);
    assert(out@ + replace_escape_spec(s@, c, d) =~= replace_escape_spec(s@, c, d));
    while i < n
        invariant
            n == s@.len(),
            i <= n,
            c != '\\',
            out@ + replace_escape_spec(
                if pending {
                    seq!['\\'] + s@.skip(i as int)
                } else {
                    s@.skip(i as int)
                },
                c,
                d,
            ) == replace_escape_spec(s@, c, d),
        decreases n - i,
    {
        let ch = s.get_char(i);
        let ghost rest = s@.skip(i + 1);
        assert(s@.skip(i as int) =~= seq![ch] + rest);
        let ghost old_out = out@;
        if pending {
            let ghost t = seq!['\\'] + (seq![ch] + rest);
            assert(t.skip(1) =~= seq![ch] + rest);
            assert(t.skip(2) =~= rest);
            if ch == c {
                push_char(&mut out, d);
                pending = false;
                assert(replace_escape_spec(t, c, d) == seq![d] + replace_escape_spec(rest, c, d));
                assert(out@ + replace_escape_spec(rest, c, d) =~= old_out + (seq![d]
                    + replace_escape_spec(rest, c, d)));
            } else if ch == '\\' {
                push_char(&mut out, '\\');
                assert(replace_escape_spec(t, c, d) == seq!['\\'] + replace_escape_spec(
                    seq![ch] + rest,
                    c,
                    d,
                ));
                assert(out@ + replace_escape_spec(seq!['\\'] + rest, c, d) =~= old_out + (seq!['\\']
                    + replace_escape_spec(seq![ch] + rest, c, d)));
            } else {
                push_char(&mut out, '\\');
                push_char(&mut out, ch);
                pending = false;
                let ghost u = seq![ch] + rest;
                assert(u.skip(1) =~= rest);
                assert(replace_escape_spec(u, c, d) == seq![ch] + replace_escape_spec(rest, c, d));
                assert(replace_escape_spec(t, c, d) == seq!['\\'] + replace_escape_spec(u, c, d));
                assert(out@ + replace_escape_spec(rest, c, d) =~= old_out + (seq!['\\'] + (seq![ch]
                    + replace_escape_spec(rest, c, d))));
            }
        } else {
            if ch == '\\' {
                pending = true;
            } else {
                push_char(&mut out, ch);
                let ghost u = seq![ch] + rest;
                assert(u.skip(1) =~= rest);
                assert(replace_escape_spec(u, c, d) == seq![ch] + replace_escape_spec(rest, c, d));
                assert(out@ + replace_escape_spec(rest, c, d) =~= old_out + (seq![ch]
                    + replace_escape_spec(rest, c, d)));
            }
        }
        i = i + 1;
    }
    assert(s@.skip(n as int) =~= Seq::<char>::empty());
    if pending {
        let ghost t = seq!['\\'];
        assert(t.skip(1) =~= Seq::<char>::empty());
        assert(replace_escape_spec(t, c, d) == seq!['\\'] + replace_escape_spec(
            Seq::<char>::empty(),
            c,
            d,
        ));
        assert(seq!['\\'] + Seq::<char>::empty() =~= t);
        let ghost old_out = out@;
        push_char(&mut out, '\\');
        assert(out@ =~= old_out + replace_escape_spec(t, c, d));
    } else {
        assert(out@ =~= out@ + replace_escape_spec(Seq::<char>::empty(), c, d));
    }
    out
}

} // verus!
