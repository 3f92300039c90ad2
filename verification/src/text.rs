//! Texts as sequences of characters: splitting at a separator and joining
//! with one, and how the two undo each other.

use vstd::prelude::*;

verus! {

/// The texts held by a sequence of strings, position by position.
pub open spec fn texts(items: Seq<String>) -> Seq<Seq<char>> {
    Seq::new(items.len(), |i: int| items[i]@)
}

/// The pieces of `content` between occurrences of `separator`, in order.
/// Empty pieces are kept: the empty text has one empty piece, and a trailing
/// separator ends in one.
pub open spec fn pieces(content: Seq<char>, separator: char) -> Seq<Seq<char>>
    decreases content.len(),
{
    if content.len() == 0 {
        seq![Seq::empty()]
    } else {
        let before = pieces(content.drop_last(), separator);
        if content.last() == separator {
            before.push(Seq::empty())
        } else {
            before.drop_last().push(before.last().push(content.last()))
        }
    }
}

/// Whether `separator` occurs nowhere in `text`.
pub open spec fn free_of(text: Seq<char>, separator: char) -> bool {
    forall|j: int| 0 <= j < text.len() ==> #[trigger] text[j] != separator
}

/// `parts` written one after another with `separator` between neighbours.
pub open spec fn joined(parts: Seq<Seq<char>>, separator: Seq<char>) -> Seq<char>
    decreases parts.len(),
{
    if parts.len() == 0 {
        Seq::empty()
    } else if parts.len() == 1 {
        parts[0]
    } else {
        joined(parts.drop_last(), separator) + separator + parts.last()
    }
}

/// There is always at least one piece.
pub proof fn pieces_are_never_none(content: Seq<char>, separator: char)
    ensures
        pieces(content, separator).len() >= 1,
    decreases content.len(),
{
    if content.len() > 0 {
        pieces_are_never_none(content.drop_last(), separator);
    }
}

/// Splitting loses nothing: no piece holds the separator, and the pieces
/// joined by the separator give the content back.
pub proof fn pieces_rejoin(content: Seq<char>, separator: char)
    ensures
        forall|i: int|
            0 <= i < pieces(content, separator).len() ==> free_of(
                #[trigger] pieces(content, separator)[i],
                separator,
            ),
        joined(pieces(content, separator), seq![separator]) == content,
    decreases content.len(),
{
    let all = pieces(content, separator);
    let sep = seq![separator];
    if content.len() == 0 {
        assert(joined(all, sep) =~= content);
    } else {
        let shorter = content.drop_last();
        let before = pieces(shorter, separator);
        pieces_rejoin(shorter, separator);
        pieces_are_never_none(shorter, separator);
        if content.last() == separator {
            assert(all.drop_last() =~= before);
            assert(joined(all, sep) =~= joined(before, sep) + sep + Seq::<char>::empty());
            assert(joined(all, sep) =~= content);
            assert forall|i: int| 0 <= i < all.len() implies free_of(#[trigger] all[i], separator) by {
                if i < all.len() - 1 {
                    assert(all[i] == before[i]);
                }
            }
        } else {
            let grown = before.last().push(content.last());
            assert(all.last() == grown);
            assert(all.drop_last() =~= before.drop_last());
            if before.len() == 1 {
                assert(joined(before, sep) == before[0]);
                assert(joined(all, sep) == all[0]);
                assert(all[0] =~= content);
            } else {
                assert(joined(before, sep) == joined(before.drop_last(), sep) + sep
                    + before.last());
                assert(joined(all, sep) == joined(all.drop_last(), sep) + sep + all.last());
                assert(joined(all, sep) =~= shorter.push(content.last()));
                assert(shorter.push(content.last()) =~= content);
            }
            assert forall|i: int| 0 <= i < all.len() implies free_of(#[trigger] all[i], separator) by {
                if i < all.len() - 1 {
                    assert(all[i] == before[i]);
                } else {
                    assert(free_of(before.last(), separator));
                    assert forall|j: int| 0 <= j < all[i].len() implies #[trigger] all[i][j]
                        != separator by {
                        if j < before.last().len() {
                            assert(all[i][j] == before.last()[j]);
                        }
                    }
                }
            }
        }
    }
}

/// Text without the separator, written behind other text, lengthens the
/// last piece and leaves the others alone.
pub proof fn pieces_of_extended(content: Seq<char>, tail: Seq<char>, separator: char)
    requires
        free_of(tail, separator),
    ensures
        pieces(content + tail, separator) == pieces(content, separator).drop_last().push(
            pieces(content, separator).last() + tail,
        ),
    decreases tail.len(),
{
    let before = pieces(content, separator);
    pieces_are_never_none(content, separator);
    if tail.len() == 0 {
        assert(content + tail =~= content);
        assert(before.last() + tail =~= before.last());
        assert(before.drop_last().push(before.last()) =~= before);
    } else {
        let shorter = tail.drop_last();
        assert(free_of(shorter, separator)) by {
            assert forall|j: int| 0 <= j < shorter.len() implies #[trigger] shorter[j]
                != separator by {
                assert(shorter[j] == tail[j]);
            }
        }
        pieces_of_extended(content, shorter, separator);
        let whole = content + tail;
        assert(whole.drop_last() =~= content + shorter);
        assert(whole.last() == tail.last());
        assert(tail.last() == tail[tail.len() - 1]);
        let mid = pieces(content + shorter, separator);
        assert(mid.drop_last() =~= before.drop_last());
        assert(mid.last().push(tail.last()) =~= before.last() + tail);
    }
}

/// Joining two runs of parts, one after the other, joins them with one
/// separator in between.
pub proof fn joined_of_concatenation(
    front: Seq<Seq<char>>,
    back: Seq<Seq<char>>,
    separator: Seq<char>,
)
    requires
        front.len() >= 1,
        back.len() >= 1,
    ensures
        joined(front + back, separator) == joined(front, separator) + separator + joined(
            back,
            separator,
        ),
    decreases back.len(),
{
    let all = front + back;
    assert(all.drop_last() =~= front + back.drop_last());
    assert(all.last() == back.last());
    if back.len() == 1 {
        assert(front + back.drop_last() =~= front);
        assert(joined(back, separator) == back[0]);
    } else {
        joined_of_concatenation(front, back.drop_last(), separator);
        assert(joined(all, separator) =~= joined(front, separator) + separator + joined(
            back,
            separator,
        ));
    }
}

/// Joining splits back: where no part holds the separator and there is at
/// least one part, the pieces of the joined text are the parts.
pub proof fn joined_splits_back(parts: Seq<Seq<char>>, separator: char)
    requires
        parts.len() >= 1,
        forall|i: int| 0 <= i < parts.len() ==> free_of(#[trigger] parts[i], separator),
    ensures
        pieces(joined(parts, seq![separator]), separator) == parts,
    decreases parts.len(),
{
    let sep = seq![separator];
    if parts.len() == 1 {
        pieces_of_extended(Seq::empty(), parts[0], separator);
        assert(Seq::<char>::empty() + parts[0] =~= parts[0]);
        assert(pieces(parts[0], separator) =~= parts);
    } else {
        let earlier = parts.drop_last();
        assert forall|i: int| 0 <= i < earlier.len() implies free_of(
            #[trigger] earlier[i],
            separator,
        ) by {
            assert(earlier[i] == parts[i]);
        }
        joined_splits_back(earlier, separator);
        let front = joined(earlier, sep) + sep;
        assert(front.drop_last() =~= joined(earlier, sep));
        assert(front.last() == separator);
        assert(pieces(front, separator) == earlier.push(Seq::empty()));
        pieces_of_extended(front, parts.last(), separator);
        assert(Seq::<char>::empty() + parts.last() =~= parts.last());
        assert(earlier.push(Seq::empty()).drop_last() =~= earlier);
        assert(earlier.push(parts.last()) =~= parts);
    }
}

} // verus!
