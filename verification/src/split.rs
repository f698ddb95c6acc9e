//! The splitter itself: its mathematical meaning and its state machine.

use vstd::prelude::*;

use crate::search::first_match_from;
use crate::search::lemma_first_match_from;

verus! {

/// The sequence of pieces that splitting `hay` on `delim` yields.
///
/// An empty haystack yields no piece; an empty delimiter passes the whole
/// haystack through as one piece.  Otherwise the piece before the leftmost
/// delimiter occurrence is yielded and the rest is split in turn, with one
/// exception: when the delimiter occurrence ends the haystack and did not
/// start it, one final empty piece marks the slot after the trailing
/// delimiter.
pub open spec fn split_spec(hay: Seq<char>, delim: Seq<char>) -> Seq<Seq<char>>
    decreases hay.len(),
{
    if hay.len() == 0 {
        Seq::empty()
    } else if delim.len() == 0 {
        seq![hay]
    } else {
        match first_match_from(hay, delim, 0) {
            Some(i) => {
                proof {
                    lemma_first_match_from(hay, delim, 0);
                }
                let rest = hay.skip(i + delim.len());
                if rest.len() == 0 && i > 0 {
                    seq![hay.take(i), Seq::<char>::empty()]
                } else {
                    seq![hay.take(i)] + split_spec(rest, delim)
                }
            }
            None => seq![hay],
        }
    }
}

/// The views of a sequence of string slices.
pub open spec fn views_of(pieces: Seq<&str>) -> Seq<Seq<char>> {
    pieces.map_values(|p: &str| p@)
}

/// A lazy splitter over a borrowed haystack.
///
/// It holds the unscanned suffix of the haystack (the remainder) and the
/// fixed delimiter, and yields one piece per [`StrSplit::next`] call.  The
/// pieces still owed are the spec sequence [`StrSplit::pending`]; a fresh
/// splitter owes exactly [`split_spec`] of its haystack and delimiter.
pub struct StrSplit<'a> {
    remainder: &'a str,
    delimiter: &'a str,
    /// One final empty piece is owed for a trailing delimiter.
    trailing: bool,
    /// Terminal state: every further step reports the end of the sequence.
    done: bool,
    /// The haystack the splitter was built over.
    full: Ghost<Seq<char>>,
    /// Where the remainder starts within the haystack.
    start: Ghost<int>,
}

impl<'a> StrSplit<'a> {
    /// The haystack this splitter was constructed over.
    pub closed spec fn haystack(self) -> Seq<char> {
        self.full@
    }

    /// The delimiter this splitter was constructed with.
    pub closed spec fn delim(self) -> Seq<char> {
        self.delimiter@
    }

    /// The character offset in the haystack at which the unscanned
    /// remainder begins.  It never decreases.
    pub closed spec fn start_offset(self) -> int {
        self.start@
    }

    /// The splitter's internal invariant: the remainder is the suffix of
    /// the haystack that begins at `start_offset`, and the two marker
    /// states only arise with an empty remainder.
    pub closed spec fn wf(self) -> bool {
        &&& 0 <= self.start@ <= self.full@.len()
        &&& self.remainder@ == self.full@.subrange(self.start@, self.full@.len() as int)
        &&& (self.trailing ==> !self.done && self.remainder@.len() == 0
            && self.delimiter@.len() > 0)
        &&& (self.done ==> self.remainder@.len() == 0)
    }

    /// The pieces this splitter still owes, in order.
    pub closed spec fn pending(self) -> Seq<Seq<char>> {
        if self.done {
            Seq::empty()
        } else if self.trailing {
            seq![Seq::<char>::empty()]
        } else {
            split_spec(self.remainder@, self.delimiter@)
        }
    }

    /// Builds a splitter over `haystack` with separator `delimiter`.
    /// Both may be empty; the splitter owes exactly the pieces of
    /// [`split_spec`].
    pub fn new(haystack: &'a str, delimiter: &'a str) -> (s: StrSplit<'a>)
        ensures
            s.wf(),
            s.haystack() == haystack@,
            s.delim() == delimiter@,
            s.start_offset() == 0,
            s.pending() == split_spec(haystack@, delimiter@),
    {
        proof {
            assert(haystack@.subrange(0, haystack@.len() as int) =~= haystack@);
        }
        StrSplit {
            remainder: haystack,
            delimiter,
            trailing: false,
            done: false,
            full: Ghost(haystack@),
            start: Ghost(0),
        }
    }

    /// One step: the next piece, or `None` once the sequence is over.
    ///
    /// A `Some` hands out the first owed piece and leaves the rest owed; it
    /// is a sub-view of the haystack beginning at the old `start_offset`.
    /// A `None` means no piece was owed, and none will ever be: stepping
    /// after the end keeps reporting the end.
    pub fn next(&mut self) -> (r: Option<&'a str>)
        requires
            old(self).wf(),
        ensures
            final(self).wf(),
            final(self).haystack() == old(self).haystack(),
            final(self).delim() == old(self).delim(),
            old(self).start_offset() <= final(self).start_offset(),
            match r {
                Some(piece) => {
                    &&& old(self).pending().len() > 0
                    &&& piece@ == old(self).pending()[0]
                    &&& final(self).pending() == old(self).pending().skip(1)
                    &&& 0 <= old(self).start_offset()
                    &&& old(self).start_offset() + piece@.len() <= old(self).haystack().len()
                    &&& piece@ == old(self).haystack().subrange(
                        old(self).start_offset(),
                        old(self).start_offset() + piece@.len(),
                    )
                }
                None => {
                    &&& old(self).pending().len() == 0
                    &&& final(self).pending().len() == 0
                }
            },
    {
        if self.done {
            return None;
        }
        if self.trailing {
            self.trailing = false;
            self.done = true;
            let piece = self.remainder;
            proof {
                assert(piece@ =~= Seq::<char>::empty());
                assert(piece@ =~= self.full@.subrange(self.start@, self.start@ + piece@.len()));
                assert(seq![Seq::<char>::empty()].skip(1) =~= Seq::<Seq<char>>::empty());
            }
            return Some(piece);
        }
        if !self.delimiter.is_empty() {
            let found = crate::search::find_first(self.remainder, self.delimiter);
            if let Some(idx) = found {
                proof {
                    lemma_first_match_from(self.remainder@, self.delimiter@, 0);
                }
                let ghost old_rem: Seq<char> = self.remainder@;
                let ghost d: Seq<char> = self.delimiter@;
                let ghost s0: int = self.start@;
                let rem_len = self.remainder.unicode_len();
                let delim_len = self.delimiter.unicode_len();
                let piece = self.remainder.substring_char(0, idx);
                let new_rem = self.remainder.substring_char(idx + delim_len, rem_len);
                self.remainder = new_rem;
                self.start = Ghost(self.start@ + idx + delim_len);
                if new_rem.is_empty() && idx > 0 {
                    self.trailing = true;
                }
                proof {
                    let i = idx as int;
                    let dl = d.len() as int;
                    assert(new_rem@ =~= old_rem.skip(i + dl));
                    assert(self.remainder@ =~= self.full@.subrange(
                        self.start@,
                        self.full@.len() as int,
                    ));
                    assert(piece@ =~= self.full@.subrange(s0, s0 + i));
                    assert(old_rem.len() > 0);
                    let p = split_spec(old_rem, d);
                    if new_rem@.len() == 0 && i > 0 {
                        assert(p == seq![old_rem.take(i), Seq::<char>::empty()]);
                        assert(p.skip(1) =~= seq![Seq::<char>::empty()]);
                    } else {
                        assert(p == seq![old_rem.take(i)] + split_spec(old_rem.skip(i + dl), d));
                        assert(p[0] == old_rem.take(i));
                        assert(p.skip(1) =~= split_spec(new_rem@, d));
                    }
                }
                return Some(piece);
            }
        }
        if self.remainder.is_empty() {
            self.done = true;
            return None;
        }
        let piece = self.remainder;
        let rem_len = self.remainder.unicode_len();
        self.remainder = self.remainder.substring_char(rem_len, rem_len);
        self.start = Ghost(self.full@.len() as int);
        self.done = true;
        proof {
            assert(self.remainder@ =~= self.full@.subrange(
                self.full@.len() as int,
                self.full@.len() as int,
            ));
            assert(piece@ =~= self.full@.subrange(
                old(self).start@,
                old(self).start@ + piece@.len(),
            ));
            assert(split_spec(piece@, self.delimiter@) == seq![piece@]);
            assert(seq![piece@].skip(1) =~= Seq::<Seq<char>>::empty());
        }
        Some(piece)
    }

    /// Runs the splitter to the end and collects every remaining piece,
    /// in order: the views of the collected pieces are exactly the owed
    /// sequence, and nothing stays owed.
    pub fn collect_all(&mut self) -> (pieces: Vec<&'a str>)
        requires
            old(self).wf(),
        ensures
            final(self).wf(),
            views_of(pieces@) == old(self).pending(),
            final(self).pending().len() == 0,
    {
        let ghost orig: StrSplit<'a> = *self;
        let mut pieces: Vec<&'a str> = Vec::new();
        proof {
            assert(views_of(pieces@) + self.pending() =~= orig.pending());
        }
        loop
            invariant
                self.wf(),
                views_of(pieces@) + self.pending() == orig.pending(),
            ensures
                self.wf(),
                views_of(pieces@) + self.pending() == orig.pending(),
                self.pending().len() == 0,
            decreases self.pending().len(),
        {
            let ghost before: Seq<&str> = pieces@;
            let ghost owed: Seq<Seq<char>> = self.pending();
            match self.next() {
                Some(p) => {
                    pieces.push(p);
                    proof {
                        assert(views_of(pieces@) =~= views_of(before).push(p@));
                        assert(views_of(pieces@) + self.pending() =~= views_of(before) + owed);
                    }
                }
                None => {
                    break;
                }
            }
        }
        proof {
            assert(views_of(pieces@) =~= views_of(pieces@) + self.pending());
        }
        pieces
    }
}

} // verus!
