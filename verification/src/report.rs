//! The attribution report: a set of lines that is kept in the order of
//! texts, so that it reads the same however it was filled.

use crate::text::{lemma_precedes_irreflexive, lemma_precedes_transitive, precedes, rank, Rank};
use vstd::prelude::*;

verus! {

/// Every line comes before all the lines behind it.
pub open spec fn strictly_sorted(lines: Seq<Seq<char>>) -> bool {
    forall|i: int, j: int| 0 <= i < j < lines.len() ==> precedes(#[trigger] lines[i], #[trigger] lines[j])
}

/// A strictly sorted sequence holds no line twice.
pub proof fn lemma_sorted_no_duplicates(lines: Seq<Seq<char>>)
    requires
        strictly_sorted(lines),
    ensures
        lines.no_duplicates(),
{
    assert forall|i: int, j: int| 0 <= i < lines.len() && 0 <= j < lines.len() && i != j implies lines[i]
        != lines[j] by {
        lemma_precedes_irreflexive(lines[i]);
    }
}

/// A set of lines has one strictly sorted listing only.
pub proof fn lemma_sorted_listing_unique(a: Seq<Seq<char>>, b: Seq<Seq<char>>)
    requires
        strictly_sorted(a),
        strictly_sorted(b),
        a.to_set() == b.to_set(),
    ensures
        a == b,
    decreases a.len(),
{
    if a.len() == 0 {
        if b.len() > 0 {
            assert(a.to_set().contains(b[0]));
        }
    } else if b.len() == 0 {
        assert(b.to_set().contains(a[0]));
    } else {
        // The first line of each listing is the least line of the set.
        assert(b.to_set().contains(a[0]));
        assert(a.to_set().contains(b[0]));
        if a[0] != b[0] {
            lemma_precedes_transitive(a[0], b[0], a[0]);
            lemma_precedes_irreflexive(a[0]);
        }
        // What is left of each listing lists what is left of the set.
        let ta = a.drop_first();
        let tb = b.drop_first();
        assert(strictly_sorted(ta)) by {
            assert forall|p: int, q: int| 0 <= p < q < ta.len() implies precedes(
                #[trigger] ta[p],
                #[trigger] ta[q],
            ) by {
                assert(precedes(a[p + 1], a[q + 1]));
            }
        }
        assert(strictly_sorted(tb)) by {
            assert forall|p: int, q: int| 0 <= p < q < tb.len() implies precedes(
                #[trigger] tb[p],
                #[trigger] tb[q],
            ) by {
                assert(precedes(b[p + 1], b[q + 1]));
            }
        }
        assert(ta.to_set() =~= tb.to_set()) by {
            assert forall|e: Seq<char>| ta.to_set().contains(e) implies tb.to_set().contains(e) by {
                lemma_precedes_irreflexive(e);
                assert(b.to_set().contains(e));
                let q = choose|q: int| 0 <= q < b.len() && b[q] == e;
                assert(tb[q - 1] == e);
            }
            assert forall|e: Seq<char>| tb.to_set().contains(e) implies ta.to_set().contains(e) by {
                lemma_precedes_irreflexive(e);
                assert(a.to_set().contains(e));
                let q = choose|q: int| 0 <= q < a.len() && a[q] == e;
                assert(ta[q - 1] == e);
            }
        }
        lemma_sorted_listing_unique(ta, tb);
        assert(b =~= seq![b[0]] + tb);
    }
}

/// Putting `line` at `at` keeps a listing strictly sorted where everything
/// before `at` comes before `line` and `line` comes before the rest.
proof fn lemma_insert_keeps_sorted(lines: Seq<Seq<char>>, at: int, line: Seq<char>)
    requires
        strictly_sorted(lines),
        0 <= at <= lines.len(),
        forall|i: int| 0 <= i < at ==> precedes(#[trigger] lines[i], line),
        forall|i: int| at <= i < lines.len() ==> precedes(line, #[trigger] lines[i]),
    ensures
        strictly_sorted(lines.insert(at, line)),
        lines.insert(at, line).to_set() == lines.to_set().insert(line),
{
    let out = lines.insert(at, line);
    assert forall|i: int, j: int| 0 <= i < j < out.len() implies precedes(
        #[trigger] out[i],
        #[trigger] out[j],
    ) by {
        if i < at && j > at {
            assert(precedes(lines[i], lines[j - 1]));
        } else if i > at {
            assert(precedes(lines[i - 1], lines[j - 1]));
        } else if j < at {
            assert(precedes(lines[i], lines[j]));
        }
    }
    assert(out.to_set() =~= lines.to_set().insert(line)) by {
        assert forall|e: Seq<char>| out.to_set().contains(e) implies lines.to_set().insert(
            line,
        ).contains(e) by {
            let p = choose|p: int| 0 <= p < out.len() && out[p] == e;
            if p < at {
                assert(lines[p] == e);
            } else if p > at {
                assert(lines[p - 1] == e);
            }
        }
        assert forall|e: Seq<char>| lines.to_set().insert(line).contains(e) implies out.to_set().contains(
            e,
        ) by {
            if e == line {
                assert(out[at] == e);
            } else {
                let p = choose|p: int| 0 <= p < lines.len() && lines[p] == e;
                if p < at {
                    assert(out[p] == e);
                } else {
                    assert(out[p + 1] == e);
                }
            }
        }
    }
}

/// A set of report lines. Each line is held once, and the lines are kept
/// in the order of texts.
pub struct Report {
    lines: Vec<String>,
}

impl View for Report {
    type V = Set<Seq<char>>;

    /// The lines that the report holds.
    closed spec fn view(&self) -> Set<Seq<char>> {
        self.lines.deep_view().to_set()
    }
}

impl Report {
    #[verifier::type_invariant]
    spec fn sorted(self) -> bool {
        strictly_sorted(self.lines.deep_view())
    }

    /// The report's lines in the order in which they are given out.
    pub closed spec fn listing(&self) -> Seq<Seq<char>> {
        self.lines.deep_view()
    }

    /// A report without lines.
    pub fn new() -> (r: Report)
        ensures
            r@ == Set::<Seq<char>>::empty(),
    {
        Report { lines: Vec::new() }
    }

    /// The number of lines.
    pub fn len(&self) -> (n: usize)
        ensures
            n == self@.len(),
            n == self.listing().len(),
    {
        proof {
            use_type_invariant(self);
            lemma_sorted_no_duplicates(self.lines.deep_view());
            self.lines.deep_view().unique_seq_to_set();
        }
        self.lines.len()
    }

    /// Where `line` stands in the listing: the number of lines before it,
    /// and whether the report holds it.
    fn locate(&self, line: &str) -> (r: (usize, bool))
        ensures
            r.0 <= self.listing().len(),
            forall|i: int| 0 <= i < r.0 ==> precedes(#[trigger] self.listing()[i], line@),
            r.1 ==> r.0 < self.listing().len() && self.listing()[r.0 as int] == line@,
            !r.1 ==> forall|i: int|
                r.0 <= i < self.listing().len() ==> precedes(line@, #[trigger] self.listing()[i]),
    {
        proof {
            use_type_invariant(self);
        }
        let ghost all = self.lines.deep_view();
        let mut lo: usize = 0;
        let mut hi: usize = self.lines.len();
        while lo < hi
            invariant
                all == self.lines.deep_view(),
                strictly_sorted(all),
                lo <= hi <= all.len(),
                forall|i: int| 0 <= i < lo ==> precedes(#[trigger] all[i], line@),
                forall|i: int| hi <= i < all.len() ==> precedes(line@, #[trigger] all[i]),
            decreases hi - lo,
        {
            let mid = lo + (hi - lo) / 2;
            match rank(self.lines[mid].as_str(), line) {
                Rank::Same => {
                    proof {
                        assert forall|i: int| 0 <= i < mid implies precedes(
                            #[trigger] all[i],
                            line@,
                        ) by {
                            assert(precedes(all[i], all[mid as int]));
                        }
                    }
                    return (mid, true);
                },
                Rank::Before => {
                    proof {
                        assert forall|i: int| 0 <= i < mid + 1 implies precedes(
                            #[trigger] all[i],
                            line@,
                        ) by {
                            if i < mid {
                                lemma_precedes_transitive(all[i], all[mid as int], line@);
                            }
                        }
                    }
                    lo = mid + 1;
                },
                Rank::After => {
                    proof {
                        assert forall|i: int| mid <= i < all.len() implies precedes(
                            line@,
                            #[trigger] all[i],
                        ) by {
                            if i > mid {
                                lemma_precedes_transitive(line@, all[mid as int], all[i]);
                            }
                        }
                    }
                    hi = mid;
                },
            }
        }
        (lo, false)
    }

    /// Whether the report holds `line`.
    pub fn contains(&self, line: &str) -> (r: bool)
        ensures
            r == self@.contains(line@),
    {
        let (at, found) = self.locate(line);
        proof {
            use_type_invariant(self);
            let all = self.lines.deep_view();
            if found {
                assert(all[at as int] == line@);
            } else if all.to_set().contains(line@) {
                lemma_precedes_irreflexive(line@);
            }
        }
        found
    }

    /// Adds `line` to the report. Returns whether the line is new.
    pub fn insert(&mut self, line: String) -> (r: bool)
        ensures
            final(self)@ == old(self)@.insert(line@),
            r == !old(self)@.contains(line@),
    {
        let (at, found) = self.locate(line.as_str());
        proof {
            use_type_invariant(&*self);
        }
        let ghost all = self.lines.deep_view();
        if found {
            proof {
                assert(all.to_set().insert(line@) =~= all.to_set());
            }
            false
        } else {
            let ghost text = line@;
            proof {
                lemma_insert_keeps_sorted(all, at as int, text);
                if all.to_set().contains(text) {
                    lemma_precedes_irreflexive(text);
                }
            }
            let mut held = Report::new();
            core::mem::swap(self, &mut held);
            let mut lines = held.lines;
            lines.insert(at, line);
            assert(lines.deep_view() =~= all.insert(at as int, text));
            *self = Report { lines };
            true
        }
    }

    /// The lines of the report, each once, in the order of texts.
    pub fn lines(&self) -> (r: &Vec<String>)
        ensures
            r.deep_view() == self.listing(),
            strictly_sorted(self.listing()),
            self.listing().to_set() == self@,
    {
        proof {
            use_type_invariant(self);
        }
        &self.lines
    }

    /// Gives up the report for its lines, each once, in the order of texts.
    pub fn into_lines(self) -> (r: Vec<String>)
        ensures
            r.deep_view() == self.listing(),
            strictly_sorted(self.listing()),
            self.listing().to_set() == self@,
    {
        proof {
            use_type_invariant(&self);
        }
        self.lines
    }
}

} // verus!
