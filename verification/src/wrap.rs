//! Wrapping a subtitle's text for display: words are packed greedily into
//! lines of bounded width, and only a bounded number of lines is shown.

use vstd::prelude::*;
use crate::text::{
    char_is_space, flat, is_space, lemma_flat_concat, lemma_flat_one, lemma_squeezed_concat,
    lemma_squeezed_space, push_all, slice_of, squeezed, views,
};

verus! {

/// The most characters a displayed line holds.
pub const LINE_WIDTH: usize = 42;

/// The most lines a displayed entry holds.
pub const MAX_LINES: usize = 2;

/// Where the piece that starts at `i` ends: at the next white space, at the end
/// of `s`, or after `room` characters, whichever comes first.
pub open spec fn piece_end(s: Seq<char>, i: int, room: nat) -> int
    decreases room,
{
    if room > 0 && 0 <= i < s.len() && !is_space(s[i]) {
        piece_end(s, i + 1, (room - 1) as nat)
    } else {
        i
    }
}

/// The pieces of `s` from index `i` on: its words, in order, where a word
/// longer than a line is cut into line-sized pieces.
pub open spec fn pieces_from(s: Seq<char>, i: int) -> Seq<Seq<char>>
    decreases s.len() - i,
{
    if i < 0 || i >= s.len() {
        Seq::empty()
    } else if is_space(s[i]) {
        pieces_from(s, i + 1)
    } else {
        let e = piece_end(s, i, LINE_WIDTH as nat);
        if i < e <= s.len() {
            seq![s.subrange(i, e)] + pieces_from(s, e)
        } else {
            Seq::empty()
        }
    }
}

/// The pieces of `s`.
pub open spec fn pieces(s: Seq<char>) -> Seq<Seq<char>> {
    pieces_from(s, 0)
}

/// The lines that greedy packing makes of `pieces` when the line under
/// construction holds `cur`: a piece joins the line, after one space, if the
/// line stays within the width, and starts the next line otherwise.
pub open spec fn pack(pieces: Seq<Seq<char>>, cur: Seq<char>) -> Seq<Seq<char>>
    decreases pieces.len(),
{
    if pieces.len() == 0 {
        if cur.len() > 0 {
            seq![cur]
        } else {
            Seq::empty()
        }
    } else {
        let w = pieces[0];
        let rest = pieces.drop_first();
        if cur.len() == 0 {
            pack(rest, w)
        } else if cur.len() + 1 + w.len() <= LINE_WIDTH {
            pack(rest, cur + seq![' '] + w)
        } else {
            seq![cur] + pack(rest, w)
        }
    }
}

/// The lines shown for `text`: the first lines of its greedy packing. Words
/// that would need a further line are not shown.
pub open spec fn wrapped_lines(text: Seq<char>) -> Seq<Seq<char>> {
    let lines = pack(pieces(text), Seq::empty());
    if lines.len() > MAX_LINES {
        lines.take(MAX_LINES as int)
    } else {
        lines
    }
}

/// `lines` joined by line feeds.
pub open spec fn joined(lines: Seq<Seq<char>>) -> Seq<char>
    decreases lines.len(),
{
    if lines.len() == 0 {
        Seq::empty()
    } else if lines.len() == 1 {
        lines[0]
    } else {
        joined(lines.drop_last()) + seq!['\n'] + lines.last()
    }
}

/// The text shown for `text`: its wrapped lines, joined by line feeds.
pub open spec fn wrapped(text: Seq<char>) -> Seq<char> {
    joined(wrapped_lines(text))
}

/// Whether every sequence in `lines` fits a displayed line.
pub open spec fn all_fit(lines: Seq<Seq<char>>) -> bool {
    forall|k: int| 0 <= k < lines.len() ==> (#[trigger] lines[k]).len() <= LINE_WIDTH
}

proof fn lemma_piece_end_bounds(s: Seq<char>, i: int, room: nat)
    requires
        0 <= i <= s.len(),
    ensures
        i <= piece_end(s, i, room) <= s.len(),
        piece_end(s, i, room) - i <= room,
        room > 0 && i < s.len() && !is_space(s[i]) ==> piece_end(s, i, room) > i,
    decreases room,
{
    if room > 0 && i < s.len() && !is_space(s[i]) {
        lemma_piece_end_bounds(s, i + 1, (room - 1) as nat);
    }
}

proof fn lemma_pieces_fit(s: Seq<char>, i: int)
    ensures
        all_fit(pieces_from(s, i)),
    decreases s.len() - i,
{
    if i < 0 || i >= s.len() {
    } else if is_space(s[i]) {
        lemma_pieces_fit(s, i + 1);
    } else {
        let e = piece_end(s, i, LINE_WIDTH as nat);
        lemma_piece_end_bounds(s, i, LINE_WIDTH as nat);
        lemma_pieces_fit(s, e);
    }
}

proof fn lemma_pack_fits(pieces: Seq<Seq<char>>, cur: Seq<char>)
    requires
        all_fit(pieces),
        cur.len() <= LINE_WIDTH,
    ensures
        all_fit(pack(pieces, cur)),
    decreases pieces.len(),
{
    if pieces.len() > 0 {
        let w = pieces[0];
        let rest = pieces.drop_first();
        assert(all_fit(rest)) by {
            assert forall|k: int| 0 <= k < rest.len() implies (#[trigger] rest[k]).len()
                <= LINE_WIDTH by {
                assert(rest[k] == pieces[k + 1]);
            }
        }
        if cur.len() == 0 {
            lemma_pack_fits(rest, w);
        } else if cur.len() + 1 + w.len() <= LINE_WIDTH {
            lemma_pack_fits(rest, cur + seq![' '] + w);
        } else {
            lemma_pack_fits(rest, w);
        }
    }
}

/// Every displayed line fits the width, and there are at most `MAX_LINES` of
/// them, whatever the text.
pub proof fn lemma_wrapped_lines_bounded(text: Seq<char>)
    ensures
        wrapped_lines(text).len() <= MAX_LINES,
        all_fit(wrapped_lines(text)),
{
    lemma_pieces_fit(text, 0);
    lemma_pack_fits(pieces(text), Seq::empty());
}

proof fn lemma_pieces_keep_text(s: Seq<char>, i: int)
    requires
        0 <= i <= s.len(),
    ensures
        squeezed(flat(pieces_from(s, i))) == squeezed(s.subrange(i, s.len() as int)),
    decreases s.len() - i,
{
    let len = s.len() as int;
    if i >= len {
        assert(s.subrange(i, len) =~= Seq::<char>::empty());
    } else if is_space(s[i]) {
        lemma_pieces_keep_text(s, i + 1);
        assert(s.subrange(i, len) =~= seq![s[i]] + s.subrange(i + 1, len));
        lemma_squeezed_concat(seq![s[i]], s.subrange(i + 1, len));
        lemma_squeezed_space(s[i]);
        assert(squeezed(seq![s[i]]) + squeezed(s.subrange(i + 1, len)) =~= squeezed(
            s.subrange(i + 1, len),
        ));
    } else {
        let e = piece_end(s, i, LINE_WIDTH as nat);
        lemma_piece_end_bounds(s, i, LINE_WIDTH as nat);
        lemma_pieces_keep_text(s, e);
        let piece = s.subrange(i, e);
        lemma_flat_concat(seq![piece], pieces_from(s, e));
        lemma_flat_one(piece);
        lemma_squeezed_concat(piece, flat(pieces_from(s, e)));
        assert(s.subrange(i, len) =~= piece + s.subrange(e, len));
        lemma_squeezed_concat(piece, s.subrange(e, len));
    }
}

proof fn lemma_pack_keeps_text(pieces: Seq<Seq<char>>, cur: Seq<char>)
    ensures
        squeezed(flat(pack(pieces, cur))) == squeezed(cur) + squeezed(flat(pieces)),
    decreases pieces.len(),
{
    if pieces.len() == 0 {
        if cur.len() > 0 {
            lemma_flat_one(cur);
        }
        assert(squeezed(cur) + squeezed(flat(pieces)) =~= squeezed(cur));
    } else {
        let w = pieces[0];
        let rest = pieces.drop_first();
        assert(pieces =~= seq![w] + rest);
        lemma_flat_concat(seq![w], rest);
        lemma_flat_one(w);
        lemma_squeezed_concat(w, flat(rest));
        if cur.len() == 0 {
            lemma_pack_keeps_text(rest, w);
            assert(squeezed(cur) + squeezed(flat(pieces)) =~= squeezed(flat(pieces)));
        } else if cur.len() + 1 + w.len() <= LINE_WIDTH {
            lemma_pack_keeps_text(rest, cur + seq![' '] + w);
            lemma_squeezed_concat(cur + seq![' '], w);
            lemma_squeezed_concat(cur, seq![' ']);
            lemma_squeezed_space(' ');
            assert(squeezed(cur + seq![' '] + w) + squeezed(flat(rest)) =~= squeezed(cur) + (
            squeezed(w) + squeezed(flat(rest))));
        } else {
            lemma_pack_keeps_text(rest, w);
            lemma_flat_concat(seq![cur], pack(rest, w));
            lemma_flat_one(cur);
            lemma_squeezed_concat(cur, flat(pack(rest, w)));
        }
    }
}

proof fn lemma_joined_keeps_text(lines: Seq<Seq<char>>)
    ensures
        squeezed(joined(lines)) == squeezed(flat(lines)),
    decreases lines.len(),
{
    if lines.len() == 0 {
    } else if lines.len() == 1 {
        assert(lines =~= seq![lines[0]]);
        lemma_flat_one(lines[0]);
    } else {
        lemma_joined_keeps_text(lines.drop_last());
        let head = joined(lines.drop_last());
        lemma_squeezed_concat(head + seq!['\n'], lines.last());
        lemma_squeezed_concat(head, seq!['\n']);
        lemma_squeezed_space('\n');
        lemma_squeezed_concat(flat(lines.drop_last()), lines.last());
        assert(squeezed(head) + Seq::<char>::empty() =~= squeezed(head));
    }
}

/// What is displayed is the beginning of what is said: wrapping adds and
/// takes away white space, and leaves out nothing but the words that would
/// need a line beyond the last. A text that packs into `MAX_LINES` lines or
/// fewer is displayed whole.
pub proof fn lemma_wrapped_keeps_text(text: Seq<char>)
    ensures
        squeezed(wrapped(text)).is_prefix_of(squeezed(text)),
        pack(pieces(text), Seq::empty()).len() <= MAX_LINES ==> squeezed(wrapped(text))
            == squeezed(text),
{
    let lines = pack(pieces(text), Seq::empty());
    lemma_pieces_keep_text(text, 0);
    assert(text.subrange(0, text.len() as int) =~= text);
    lemma_pack_keeps_text(pieces(text), Seq::empty());
    assert(squeezed(Seq::<char>::empty()) + squeezed(flat(pieces(text))) =~= squeezed(
        flat(pieces(text)),
    ));
    assert(squeezed(flat(lines)) == squeezed(text));
    lemma_joined_keeps_text(wrapped_lines(text));
    if lines.len() > MAX_LINES {
        let shown = lines.take(MAX_LINES as int);
        let hidden = lines.skip(MAX_LINES as int);
        assert(lines =~= shown + hidden);
        lemma_flat_concat(shown, hidden);
        lemma_squeezed_concat(flat(shown), flat(hidden));
        let a = squeezed(flat(shown));
        let b = squeezed(flat(hidden));
        assert((a + b).subrange(0, a.len() as int) =~= a);
    } else {
        let a = squeezed(text);
        assert(a.subrange(0, a.len() as int) =~= a);
    }
}

/// Splits `s` into its pieces.
pub fn split_pieces(s: &Vec<char>) -> (out: Vec<Vec<char>>)
    ensures
        views(out@) == pieces(s@),
{
    let mut out: Vec<Vec<char>> = Vec::new();
    let n = s.len();
    let mut i: usize = 0;
    while i < n
        invariant
            i <= n == s.len(),
            pieces(s@) == views(out@) + pieces_from(s@, i as int),
        decreases n - i,
    {
        if char_is_space(s[i]) {
            i += 1;
        } else {
            let mut e: usize = i;
            let mut room: usize = LINE_WIDTH;
            while room > 0 && e < n && !char_is_space(s[e])
                invariant
                    i <= e <= n == s.len(),
                    room <= LINE_WIDTH,
                    piece_end(s@, i as int, LINE_WIDTH as nat) == piece_end(
                        s@,
                        e as int,
                        room as nat,
                    ),
                decreases room,
            {
                e += 1;
                room -= 1;
            }
            proof {
                lemma_piece_end_bounds(s@, i as int, LINE_WIDTH as nat);
            }
            let piece = slice_of(s, i, e);
            let ghost before = views(out@);
            out.push(piece);
            proof {
                assert(views(out@) =~= before + seq![s@.subrange(i as int, e as int)]);
                assert(pieces(s@) =~= views(out@) + pieces_from(s@, e as int));
            }
            i = e;
        }
    }
    proof {
        assert(views(out@) =~= pieces(s@));
    }
    out
}

/// Packs `pieces` greedily into lines.
pub fn pack_lines(pieces: &Vec<Vec<char>>) -> (lines: Vec<Vec<char>>)
    ensures
        views(lines@) == pack(views(pieces@), Seq::empty()),
{
    let ghost all = views(pieces@);
    let mut lines: Vec<Vec<char>> = Vec::new();
    let mut cur: Vec<char> = Vec::new();
    let mut k: usize = 0;
    proof {
        assert(all.skip(0) =~= all);
        assert(views(lines@) + pack(all, cur@) =~= pack(all, cur@));
    }
    while k < pieces.len()
        invariant
            k <= pieces.len(),
            all == views(pieces@),
            pack(all, Seq::empty()) == views(lines@) + pack(all.skip(k as int), cur@),
        decreases pieces.len() - k,
    {
        let w = &pieces[k];
        proof {
            let rest = all.skip(k as int);
            assert(rest[0] == w@);
            assert(rest.drop_first() =~= all.skip(k + 1));
        }
        if cur.len() == 0 {
            cur = slice_of(w, 0, w.len());
            assert(cur@ =~= w@);
        } else if w.len() < LINE_WIDTH && cur.len() <= LINE_WIDTH - 1 - w.len() {
            let ghost before = cur@;
            cur.push(' ');
            push_all(&mut cur, w);
            assert(cur@ =~= before + seq![' '] + w@);
        } else {
            let ghost before = views(lines@);
            let ghost line = cur@;
            let mut fresh = slice_of(w, 0, w.len());
            assert(fresh@ =~= w@);
            std::mem::swap(&mut cur, &mut fresh);
            lines.push(fresh);
            proof {
                assert(views(lines@) =~= before + seq![line]);
                assert(before + (seq![line] + pack(all.skip(k + 1), w@)) =~= views(lines@)
                    + pack(all.skip(k + 1), w@));
            }
        }
        k += 1;
    }
    proof {
        assert(all.skip(k as int) =~= Seq::<Seq<char>>::empty());
    }
    if cur.len() > 0 {
        let ghost before = views(lines@);
        let ghost line = cur@;
        lines.push(cur);
        assert(views(lines@) =~= before + seq![line]);
    } else {
        assert(views(lines@) =~= views(lines@) + Seq::<Seq<char>>::empty());
    }
    lines
}

/// The lines shown for `text`.
pub fn wrap_lines(text: &Vec<char>) -> (lines: Vec<Vec<char>>)
    ensures
        views(lines@) == wrapped_lines(text@),
        lines.len() <= MAX_LINES,
        all_fit(views(lines@)),
{
    let pieces = split_pieces(text);
    let mut lines = pack_lines(&pieces);
    let ghost packed = views(lines@);
    if lines.len() > MAX_LINES {
        lines.truncate(MAX_LINES);
        assert(views(lines@) =~= packed.take(MAX_LINES as int));
    }
    proof {
        lemma_wrapped_lines_bounded(text@);
    }
    lines
}

/// Appends the displayed form of `text` to `out`.
pub fn push_wrapped(out: &mut Vec<char>, text: &Vec<char>)
    ensures
        final(out)@ == old(out)@ + wrapped(text@),
{
    let lines = wrap_lines(text);
    let ghost all = views(lines@);
    let mut k: usize = 0;
    while k < lines.len()
        invariant
            k <= lines.len(),
            all == views(lines@),
            out@ == old(out)@ + joined(all.take(k as int)),
        decreases lines.len() - k,
    {
        let ghost before = out@;
        let ghost prefix = all.take(k as int);
        let ghost next = all.take(k + 1);
        proof {
            assert(next.drop_last() =~= prefix);
            assert(next.last() == lines[k as int]@);
        }
        if k > 0 {
            out.push('\n');
        }
        push_all(out, &lines[k]);
        proof {
            if k == 0 {
                assert(prefix =~= Seq::<Seq<char>>::empty());
                assert(out@ =~= old(out)@ + joined(next));
            } else {
                assert(out@ =~= old(out)@ + (joined(prefix) + seq!['\n'] + next.last()));
            }
        }
        k += 1;
    }
    proof {
        assert(all.take(k as int) =~= all);
    }
}

/// The text shown for `text`: at most `MAX_LINES` lines of at most
/// `LINE_WIDTH` characters each, joined by line feeds.
pub fn wrap_text(text: &str) -> (out: String)
    ensures
        out@ == wrapped(text@),
{
    let chars = crate::text::chars_of(text);
    let mut shown: Vec<char> = Vec::new();
    push_wrapped(&mut shown, &chars);
    assert(shown@ =~= wrapped(text@));
    crate::text::string_of(&shown)
}

} // verus!
