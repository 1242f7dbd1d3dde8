use crate::buffer::GapBuffer;
use vstd::prelude::*;
use vstd::string::StringExecFns;

verus! {

/// One rendered item after another, a comma separator between neighbours
/// and nowhere else.
pub open spec fn joined(items: Seq<Seq<char>>) -> Seq<char>
    decreases items.len(),
{
    if items.len() == 0 {
        Seq::empty()
    } else if items.len() == 1 {
        items[0]
    } else {
        joined(items.drop_last()) + ", "@ + items.last()
    }
}

/// The marker that stands in for the hidden gap.
pub open spec fn gap_marker() -> Seq<char> {
    "[...]"@
}

/// The items of the rendering, in order: the left-run pieces, the gap marker
/// if and only if the gap is non-empty, then the right-run pieces.
pub open spec fn render_items(pieces: Seq<Seq<char>>, split: int, gap: bool) -> Seq<Seq<char>> {
    pieces.take(split) + (if gap {
        seq![gap_marker()]
    } else {
        Seq::<Seq<char>>::empty()
    }) + pieces.skip(split)
}

/// The whole rendering: the items, comma-separated, bracket-delimited.
pub open spec fn rendered(pieces: Seq<Seq<char>>, split: int, gap: bool) -> Seq<char>
    recommends
        0 <= split <= pieces.len(),
{
    "["@ + joined(render_items(pieces, split, gap)) + "]"@
}

proof fn lemma_joined_step(items: Seq<Seq<char>>, i: int)
    requires
        0 <= i < items.len(),
    ensures
        i == 0 ==> joined(items.take(1)) == items[0],
        i > 0 ==> joined(items.take(i + 1)) == joined(items.take(i)) + ", "@ + items[i],
{
    let t = items.take(i + 1);
    assert(t.drop_last() =~= items.take(i));
    assert(t.last() == items[i]);
}

impl<T> GapBuffer<T> {
    /// The buffer's debug view, given one already-rendered piece per live
    /// element, in logical order: brackets around the left-run pieces, a
    /// `[...]` marker where a non-empty gap hides, then the right-run pieces,
    /// with a comma separator between neighbouring items only. Read-only;
    /// element rendering itself is the caller's business, since it depends
    /// on the element type alone.
    #[verifier::loop_isolation(false)]
    pub fn debug_string(&self, pieces: &Vec<String>) -> (s: String)
        requires
            self.well_formed(),
            pieces@.len() == self@.len(),
        ensures
            s@ == rendered(
                pieces@.map_values(|p: String| p@),
                self.spec_gap_start() as int,
                self.spec_gap_len() > 0,
            ),
    {
        let ghost ps = pieces@.map_values(|p: String| p@);
        proof {
            self.lemma_len_capacity();
        }
        let gs = self.gap_start();
        let n = self.len();
        let cap = self.capacity();
        let has_gap = self.gap_len() > 0;
        let ghost items = render_items(ps, gs as int, has_gap);
        let extra: usize = if has_gap {
            1
        } else {
            0
        };
        proof {
            assert(n + extra <= cap);
            assert(items.len() == n + extra);
        }
        let total = n + extra;
        let mut s = String::from_str("[");
        proof {
            assert(s@ =~= "["@ + joined(items.take(0)));
        }
        let mut t: usize = 0;
        while t < total
            invariant
                t <= total,
                s@ == "["@ + joined(items.take(t as int)),
            decreases total - t,
        {
            if t != 0 {
                s.append(", ");
            }
            if t < gs {
                s.append(pieces[t].as_str());
                proof {
                    assert(items[t as int] == ps.take(gs as int)[t as int]);
                    assert(items[t as int] == pieces@[t as int]@);
                }
            } else if has_gap && t == gs {
                s.append("[...]");
                proof {
                    assert(items[t as int] == gap_marker());
                }
            } else {
                let idx = t - extra;
                s.append(pieces[idx].as_str());
                proof {
                    assert(items[t as int] == ps.skip(gs as int)[t as int - gs - extra]);
                    assert(items[t as int] == pieces@[idx as int]@);
                }
            }
            proof {
                lemma_joined_step(items, t as int);
                assert(s@ =~= "["@ + joined(items.take(t as int + 1)));
            }
            t = t + 1;
        }
        s.append("]");
        proof {
            assert(items.take(total as int) =~= items);
            assert(s@ == rendered(ps, gs as int, self.spec_gap_len() > 0));
        }
        s
    }
}

} // verus!
