//! The line buffer: a `crop::Rope` seen as a sequence of characters.

use vstd::prelude::*;
use crop::Rope;
use crate::text::{byte_len, line_at, line_count, line_end, line_start, lemma_byte_len_split, lemma_line_bounds};

verus! {

#[verifier::external_type_specification]
#[verifier::external_body]
pub struct ExRope(crop::Rope);

/// The text that a rope holds.
pub uninterp spec fn rope_text(r: crop::Rope) -> Seq<char>;

/// Relies on `Rope::from(String)`: the rope holds exactly the string's text.
#[verifier::external_body]
fn rope_from_string(s: String) -> (r: Rope)
    ensures
        rope_text(r) == s@,
{
    Rope::from(s)
}

/// Relies on `Rope`'s `Display`, through `to_string`: it writes out the whole text.
#[verifier::external_body]
fn rope_to_string(r: &Rope) -> (s: String)
    ensures
        s@ == rope_text(*r),
{
    r.to_string()
}

/// Relies on `Rope::byte_len`: the length of the text in UTF-8 bytes.
#[verifier::external_body]
fn rope_byte_len(r: &Rope) -> (n: usize)
    ensures
        n == byte_len(rope_text(*r)),
{
    r.byte_len()
}

/// Relies on `Rope::line_len`: lines end at `'\n'`, a final line break opens
/// no empty line, and an empty rope has none.
#[verifier::external_body]
fn rope_line_len(r: &Rope) -> (n: usize)
    ensures
        n == line_count(rope_text(*r)),
{
    r.line_len()
}

/// Relies on `Rope::line` and the `Display` of the slice it returns: line `i`
/// without its `"\n"` or `"\r\n"`.
#[verifier::external_body]
fn rope_line(r: &Rope, i: usize) -> (s: String)
    requires
        i < line_count(rope_text(*r)),
    ensures
        s@ == line_at(rope_text(*r), i as nat),
{
    r.line(i).to_string()
}

/// Relies on `Rope::line` and `RopeSlice::byte_len`: the UTF-8 length of line
/// `i` without its terminator.
#[verifier::external_body]
fn rope_line_byte_len(r: &Rope, i: usize) -> (n: usize)
    requires
        i < line_count(rope_text(*r)),
    ensures
        n == byte_len(line_at(rope_text(*r), i as nat)),
{
    r.line(i).byte_len()
}

/// Relies on `Rope::byte_of_line`: the byte offset where line `i` begins.
#[verifier::external_body]
fn rope_byte_of_line(r: &Rope, i: usize) -> (n: usize)
    requires
        i < line_count(rope_text(*r)),
    ensures
        n == byte_len(rope_text(*r).take(line_start(rope_text(*r), i as nat))),
{
    r.byte_of_line(i)
}

/// Relies on `Rope::delete`: removes the text between two character
/// boundaries, given as byte offsets.
#[verifier::external_body]
fn rope_delete(r: &mut Rope, start: usize, end: usize)
    requires
        exists|a: int, b: int|
            0 <= a <= b <= rope_text(*old(r)).len() && byte_len(rope_text(*old(r)).take(a))
                == start && byte_len(rope_text(*old(r)).take(b)) == end,
    ensures
        forall|a: int, b: int|
            0 <= a <= b <= rope_text(*old(r)).len() && byte_len(rope_text(*old(r)).take(a))
                == start && byte_len(rope_text(*old(r)).take(b)) == end ==> rope_text(*final(r))
                == rope_text(*old(r)).take(a) + rope_text(*old(r)).skip(b),
{
    r.delete(start..end)
}

/// Relies on `Rope::insert`: puts `s` at a character boundary, given as a byte
/// offset.
#[verifier::external_body]
fn rope_insert(r: &mut Rope, at: usize, s: &str)
    requires
        exists|a: int| 0 <= a <= rope_text(*old(r)).len() && byte_len(rope_text(*old(r)).take(a)) == at,
    ensures
        forall|a: int|
            0 <= a <= rope_text(*old(r)).len() && byte_len(rope_text(*old(r)).take(a)) == at
                ==> rope_text(*final(r)) == rope_text(*old(r)).take(a) + s@ + rope_text(*old(r)).skip(a),
{
    r.insert(at, s)
}

/// The text being edited.
pub struct LineBuffer {
    rope: Rope,
}

impl View for LineBuffer {
    type V = Seq<char>;

    closed spec fn view(&self) -> Seq<char> {
        rope_text(self.rope)
    }
}

/// The text with line `k` (0-based) replaced by `s`; the line's terminator stays.
pub open spec fn replace_line(t: Seq<char>, k: nat, s: Seq<char>) -> Seq<char> {
    t.take(line_start(t, k)) + s + t.skip(line_end(t, k))
}

impl LineBuffer {
    /// A buffer that holds `text`.
    pub fn from_text(text: String) -> (b: LineBuffer)
        ensures
            b@ == text@,
    {
        LineBuffer { rope: rope_from_string(text) }
    }

    /// The whole text, as it would be saved.
    pub fn to_text(&self) -> (s: String)
        ensures
            s@ == self@,
    {
        rope_to_string(&self.rope)
    }

    pub fn line_count(&self) -> (n: usize)
        ensures
            n == line_count(self@),
    {
        rope_line_len(&self.rope)
    }

    /// Line `i` (0-based), without its terminator.
    pub fn line(&self, i: usize) -> (s: String)
        requires
            i < line_count(self@),
        ensures
            s@ == line_at(self@, i as nat),
    {
        rope_line(&self.rope, i)
    }

    /// Replaces the content of line `i` (0-based) with `s`, keeping its
    /// terminator.
    pub fn replace_line(&mut self, i: usize, s: &str)
        requires
            i < line_count(old(self)@),
        ensures
            final(self)@ == replace_line(old(self)@, i as nat, s@),
    {
        let ghost t = self@;
        proof {
            lemma_line_bounds(t, i as nat);
            lemma_byte_len_split(t, line_start(t, i as nat), line_end(t, i as nat));
        }
        let total = rope_byte_len(&self.rope);
        let start = rope_byte_of_line(&self.rope, i);
        let width = rope_line_byte_len(&self.rope, i);
        // The line ends within the text, whose byte length fits in `usize`.
        assert(start + width <= total);
        let end = start + width;
        let ghost a = line_start(t, i as nat);
        let ghost b = line_end(t, i as nat);
        assert(byte_len(t.take(a)) == start && byte_len(t.take(b)) == end);
        rope_delete(&mut self.rope, start, end);
        let ghost t1 = self@;
        assert(t1 == t.take(a) + t.skip(b));
        assert(t1.take(a) =~= t.take(a));
        assert(t1.skip(a) =~= t.skip(b));
        assert(byte_len(t1.take(a)) == start);
        rope_insert(&mut self.rope, start, s);
        assert(self@ =~= replace_line(t, i as nat, s@));
    }
}

} // verus!
