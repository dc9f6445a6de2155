//! Words and lines: the text side of the control messages.

use vstd::prelude::*;

verus! {

/// `String::push` of the standard library: appends one character to the end
/// of the string.
pub assume_specification[ String::push ](s: &mut String, c: char)
    ensures
        final(s)@ == old(s)@.push(c),
;

/// Whether `c` is white space: the code points with the Unicode property
/// White_Space.
pub open spec fn is_space(c: char) -> bool {
    let n = c as u32;
    ||| 0x09 <= n <= 0x0D
    ||| n == 0x20
    ||| n == 0x85
    ||| n == 0xA0
    ||| n == 0x1680
    ||| 0x2000 <= n <= 0x200A
    ||| n == 0x2028
    ||| n == 0x2029
    ||| n == 0x202F
    ||| n == 0x205F
    ||| n == 0x3000
}

/// Whether `c` is white space.
pub fn is_whitespace(c: char) -> (out: bool)
    ensures
        out == is_space(c),
{
    let n: u32 = c as u32;
    (0x09 <= n && n <= 0x0D) || n == 0x20 || n == 0x85 || n == 0xA0 || n == 0x1680 || (0x2000 <= n
        && n <= 0x200A) || n == 0x2028 || n == 0x2029 || n == 0x202F || n == 0x205F || n == 0x3000
}

/// The texts of a sequence of strings.
pub open spec fn texts(v: Seq<String>) -> Seq<Seq<char>> {
    v.map_values(|s: String| s@)
}

/// What a left-to-right scan of a text holds: the words that have ended, and
/// the characters of the word that is still open.
pub struct Scan {
    pub done: Seq<Seq<char>>,
    pub pending: Seq<char>,
}

/// The scan after one more character.
pub open spec fn scan_step(before: Scan, c: char) -> Scan {
    if !is_space(c) {
        Scan { done: before.done, pending: before.pending.push(c) }
    } else if before.pending.len() > 0 {
        Scan { done: before.done.push(before.pending), pending: Seq::empty() }
    } else {
        before
    }
}

/// The scan of a whole text.
pub open spec fn scan(s: Seq<char>) -> Scan
    decreases s.len(),
{
    if s.len() == 0 {
        Scan { done: Seq::empty(), pending: Seq::empty() }
    } else {
        scan_step(scan(s.drop_last()), s.last())
    }
}

/// The words of a text: its maximal runs of characters that are not white
/// space, in order.
pub open spec fn words(s: Seq<char>) -> Seq<Seq<char>> {
    let end = scan(s);
    if end.pending.len() > 0 {
        end.done.push(end.pending)
    } else {
        end.done
    }
}

/// The words joined by single spaces.
pub open spec fn joined(parts: Seq<Seq<char>>) -> Seq<char>
    decreases parts.len(),
{
    if parts.len() == 0 {
        Seq::empty()
    } else if parts.len() == 1 {
        parts[0]
    } else {
        joined(parts.drop_last()).push(' ') + parts.last()
    }
}

/// Joins the words by single spaces.
pub fn join_words(parts: &Vec<String>) -> (out: String)
    ensures
        out@ == joined(texts(parts@)),
{
    let mut out = String::new();
    let mut i: usize = 0;
    assert(texts(parts@).take(0) =~= Seq::<Seq<char>>::empty());
    while i < parts.len()
        invariant
            i <= parts.len(),
            out@ == joined(texts(parts@).take(i as int)),
        decreases parts.len() - i,
    {
        proof {
            let next = texts(parts@).take(i + 1);
            assert(next.drop_last() =~= texts(parts@).take(i as int));
            assert(next.last() == parts@[i as int]@);
        }
        if i > 0 {
            out.push(' ');
        }
        out.append(parts[i].as_str());
        i = i + 1;
    }
    assert(texts(parts@).take(parts.len() as int) =~= texts(parts@));
    out
}

/// Scanning one more character.
pub proof fn lemma_scan_push(s: Seq<char>, c: char)
    ensures
        scan(s.push(c)) == scan_step(scan(s), c),
{
    assert(s.push(c).drop_last() =~= s);
}

} // verus!
