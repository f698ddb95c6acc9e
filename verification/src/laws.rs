//! The laws the splitter obeys, proved of [`split_spec`].
//!
//! [`crate::split::StrSplit::collect_all`] returns exactly
//! [`split_spec`] of the haystack and delimiter, so each law here is a law
//! of the executable splitter as well.

use vstd::prelude::*;

use crate::search::first_match_from;
use crate::search::lemma_first_match_from;
use crate::split::split_spec;

verus! {

/// The pieces joined back together with `delim` between them.
pub open spec fn join_with(pieces: Seq<Seq<char>>, delim: Seq<char>) -> Seq<char>
    decreases pieces.len(),
{
    if pieces.len() == 0 {
        Seq::empty()
    } else if pieces.len() == 1 {
        pieces[0]
    } else {
        pieces[0] + delim + join_with(pieces.skip(1), delim)
    }
}

/// A non-empty haystack splits into at least one piece.
pub proof fn lemma_split_nonempty(hay: Seq<char>, delim: Seq<char>)
    requires
        hay.len() > 0,
    ensures
        split_spec(hay, delim).len() >= 1,
{
}

/// Pass-through: with an empty delimiter, a non-empty haystack is yielded
/// whole, as exactly one piece.
pub proof fn lemma_pass_through(hay: Seq<char>, delim: Seq<char>)
    requires
        hay.len() > 0,
        delim.len() == 0,
    ensures
        split_spec(hay, delim) == seq![hay],
{
}

/// An empty haystack yields no piece, whatever the delimiter.
pub proof fn lemma_empty_haystack(delim: Seq<char>)
    ensures
        split_spec(Seq::empty(), delim) == Seq::<Seq<char>>::empty(),
{
}

/// Reconstruction: with a non-empty delimiter, joining the pieces with the
/// delimiter between them gives the haystack back — except that when the
/// haystack ends in a delimiter occurrence that directly follows another
/// one (or is the whole haystack), that final occurrence is not replayed
/// by the join; then the join is the haystack with one trailing delimiter
/// removed.
pub proof fn lemma_reconstruction(hay: Seq<char>, delim: Seq<char>)
    requires
        delim.len() > 0,
    ensures
        join_with(split_spec(hay, delim), delim) == hay
            || hay == join_with(split_spec(hay, delim), delim) + delim,
    decreases hay.len(),
{
    if hay.len() == 0 {
        assert(join_with(split_spec(hay, delim), delim) =~= hay);
    } else {
        lemma_first_match_from(hay, delim, 0);
        match first_match_from(hay, delim, 0) {
            Some(i) => {
                let dl = delim.len() as int;
                let rest = hay.skip(i + dl);
                assert(hay.subrange(i, i + dl) == delim);
                assert forall|t: int| 0 <= t < hay.len() implies (hay.take(i) + delim
                    + rest)[t] == hay[t] by {
                    if i <= t < i + dl {
                        assert(delim[t - i] == hay.subrange(i, i + dl)[t - i]);
                    }
                }
                assert(hay =~= hay.take(i) + delim + rest);
                if rest.len() == 0 {
                    assert(hay.take(i) + delim + rest =~= hay.take(i) + delim);
                    if i > 0 {
                        let p = split_spec(hay, delim);
                        assert(p == seq![hay.take(i), Seq::<char>::empty()]);
                        assert(p.skip(1) =~= seq![Seq::<char>::empty()]);
                        assert(join_with(seq![Seq::<char>::empty()], delim)
                            == Seq::<char>::empty());
                        assert(join_with(p, delim) == hay.take(i) + delim
                            + Seq::<char>::empty());
                        assert(hay.take(i) + delim + Seq::<char>::empty() =~= hay.take(i)
                            + delim);
                    } else {
                        let p = split_spec(hay, delim);
                        assert(split_spec(rest, delim) == Seq::<Seq<char>>::empty());
                        assert(p =~= seq![hay.take(0)]);
                        assert(join_with(p, delim) == hay.take(0));
                        assert(hay =~= hay.take(0) + delim);
                        assert(hay == join_with(p, delim) + delim);
                    }
                } else {
                    let p = split_spec(hay, delim);
                    let s = split_spec(rest, delim);
                    assert(p == seq![hay.take(i)] + s);
                    lemma_split_nonempty(rest, delim);
                    assert(p.len() >= 2);
                    assert(p[0] == hay.take(i));
                    assert(p.skip(1) =~= s);
                    assert(join_with(p, delim) == hay.take(i) + delim + join_with(s, delim));
                    lemma_reconstruction(rest, delim);
                    if join_with(s, delim) == rest {
                        assert(join_with(p, delim) == hay);
                    } else {
                        assert(rest == join_with(s, delim) + delim);
                        assert(hay =~= (hay.take(i) + delim + join_with(s, delim)) + delim);
                    }
                }
            }
            None => {
            }
        }
    }
}

} // verus!
