use vstd::prelude::*;
use vstd::string::*;

verus! {

/// Whether a character is white space in the sense of Unicode.
pub open spec fn is_space(c: char) -> bool {
    let u = c as u32;
    ||| 0x09 <= u <= 0x0d
    ||| u == 0x20
    ||| u == 0x85
    ||| u == 0xa0
    ||| u == 0x1680
    ||| 0x2000 <= u <= 0x200a
    ||| u == 0x2028
    ||| u == 0x2029
    ||| u == 0x202f
    ||| u == 0x205f
    ||| u == 0x3000
}

/// Whether a character is white space in the sense of Unicode.
pub fn char_is_space(c: char) -> (r: bool)
    ensures
        r == is_space(c),
{
    let u = c as u32;
    (0x09 <= u && u <= 0x0d) || u == 0x20 || u == 0x85 || u == 0xa0 || u == 0x1680 || (0x2000 <= u
        && u <= 0x200a) || u == 0x2028 || u == 0x2029 || u == 0x202f || u == 0x205f || u == 0x3000
}

/// The place of the first character at or behind `i` that is no white space.
pub open spec fn lead_from(s: Seq<char>, i: int) -> int
    decreases s.len() - i,
{
    if 0 <= i < s.len() && is_space(s[i]) {
        lead_from(s, i + 1)
    } else {
        i
    }
}

/// The place behind the last character before `j`, and not before `lo`,
/// that is no white space.
pub open spec fn trail_to(s: Seq<char>, lo: int, j: int) -> int
    decreases j,
{
    if lo < j <= s.len() && 0 < j && is_space(s[j - 1]) {
        trail_to(s, lo, j - 1)
    } else {
        j
    }
}

/// A text without the white space at its start and at its end.
pub open spec fn trimmed(s: Seq<char>) -> Seq<char> {
    let a = lead_from(s, 0);
    let b = trail_to(s, a, s.len() as int);
    s.subrange(a, b)
}

/// The first `n` characters of a text cut at each comma. The last piece is
/// the one still open, so there is always one piece more than commas.
pub open spec fn pieces(s: Seq<char>, n: int) -> Seq<Seq<char>>
    decreases n,
{
    if n <= 0 {
        seq![Seq::<char>::empty()]
    } else {
        let before = pieces(s, n - 1);
        if s[n - 1] == ',' {
            before.push(Seq::<char>::empty())
        } else {
            before.update(before.len() - 1, before.last().push(s[n - 1]))
        }
    }
}

/// The labels that a text of labels joined by commas names, each without
/// the white space around it. An empty text names no label.
pub open spec fn split_labels(s: Seq<char>) -> Seq<Seq<char>> {
    if s.len() == 0 {
        Seq::empty()
    } else {
        pieces(s, s.len() as int).map_values(|piece: Seq<char>| trimmed(piece))
    }
}

/// The characters of `text` from `from` up to `to`, without the white space
/// at their start and at their end.
pub fn trimmed_part(text: &str, from: usize, to: usize) -> (r: String)
    requires
        from <= to <= text@.len(),
    ensures
        r@ == trimmed(text@.subrange(from as int, to as int)),
{
    let piece = text.substring_char(from, to);
    let m = to - from;
    let mut a: usize = 0;
    while a < m && char_is_space(piece.get_char(a))
        invariant
            m == piece@.len(),
            a <= m,
            lead_from(piece@, 0) == lead_from(piece@, a as int),
        decreases m - a,
    {
        a += 1;
    }
    let mut b: usize = m;
    while b > a && char_is_space(piece.get_char(b - 1))
        invariant
            m == piece@.len(),
            a <= b <= m,
            trail_to(piece@, a as int, m as int) == trail_to(piece@, a as int, b as int),
        decreases b,
    {
        b -= 1;
    }
    piece.substring_char(a, b).to_owned()
}

/// The labels that a text of labels joined by commas names, each without
/// the white space around it. An empty text names no label.
pub fn split_tag_labels(text: &str) -> (r: Vec<String>)
    ensures
        r.len() == split_labels(text@).len(),
        forall|k: int| 0 <= k < r.len() ==> (#[trigger] r[k])@ == split_labels(text@)[k],
{
    let n = text.unicode_len();
    let mut out: Vec<String> = Vec::new();
    if n == 0 {
        return out;
    }
    let mut start: usize = 0;
    let mut i: usize = 0;
    let ghost mut done: Seq<Seq<char>> = Seq::empty();
    proof {
        assert(text@.subrange(0, 0) =~= Seq::<char>::empty());
        assert(pieces(text@, 0) =~= done.push(text@.subrange(0, 0)));
    }
    while i < n
        invariant
            n == text@.len(),
            start <= i <= n,
            out.len() == done.len(),
            forall|k: int| 0 <= k < out.len() ==> (#[trigger] out[k])@ == trimmed(done[k]),
            pieces(text@, i as int) == done.push(text@.subrange(start as int, i as int)),
        decreases n - i,
    {
        let c = text.get_char(i);
        let ghost open = text@.subrange(start as int, i as int);
        if c == ',' {
            out.push(trimmed_part(text, start, i));
            proof {
                done = done.push(open);
                assert(text@.subrange(i + 1, i + 1) =~= Seq::<char>::empty());
            }
            start = i + 1;
        } else {
            proof {
                assert(done.push(open).update(done.len() as int, open.push(c)) =~= done.push(
                    text@.subrange(start as int, i + 1),
                )) by {
                    assert(open.push(c) =~= text@.subrange(start as int, i + 1));
                }
            }
        }
        i += 1;
    }
    out.push(trimmed_part(text, start, n));
    proof {
        let last = text@.subrange(start as int, n as int);
        let cut = pieces(text@, n as int);
        let labels = split_labels(text@);
        assert(cut == done.push(last));
        assert(labels.len() == cut.len());
        assert forall|k: int| 0 <= k < out.len() implies (#[trigger] out[k])@ == labels[k] by {
            assert(labels[k] == trimmed(cut[k]));
        }
    }
    out
}

} // verus!
