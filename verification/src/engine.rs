//! The automaton engine: generation stepping with wrapped neighbors and an
//! ordered, optionally bounded history of generations.

use vstd::prelude::*;

use vstd::arithmetic::div_mod::{lemma_mod_multiples_vanish, lemma_small_mod};

use crate::rule::{is_bit, pattern, rule_bit, RuleTable};
use crate::AutomatonError;

verus! {

/// Every cell of `g` is binary.
pub open spec fn all_bits(g: Seq<u8>) -> bool {
    forall|i: int| 0 <= i < g.len() ==> is_bit(#[trigger] g[i])
}

/// Index of the left neighbor of cell `i` on a ring of width `w`.
pub open spec fn left_index(i: int, w: int) -> int
    recommends
        0 <= i < w,
{
    (i - 1 + w) % w
}

/// Index of the right neighbor of cell `i` on a ring of width `w`.
pub open spec fn right_index(i: int, w: int) -> int
    recommends
        0 <= i < w,
{
    (i + 1) % w
}

/// The next state of cell `i`: the rule applied to the wrapped neighborhood
/// `(g[left], g[i], g[right])`.
pub open spec fn next_cell(rule: u8, g: Seq<u8>, i: int) -> u8
    recommends
        g.len() >= 1,
        0 <= i < g.len(),
{
    rule_bit(
        rule,
        pattern(g[left_index(i, g.len() as int)], g[i], g[right_index(i, g.len() as int)]),
    )
}

/// The generation that follows `g` under `rule`, every cell computed from the
/// same immutable snapshot of `g`.
pub open spec fn next_generation(rule: u8, g: Seq<u8>) -> Seq<u8> {
    Seq::new(g.len(), |i: int| next_cell(rule, g, i))
}

/// Stepping preserves the generation length, for every width.
pub proof fn lemma_step_preserves_width(rule: u8, g: Seq<u8>)
    ensures
        next_generation(rule, g).len() == g.len(),
{
}

/// Wraparound law: on a ring of width `w` the neighbor indices step by one,
/// except that cell 0 takes its left neighbor from the far right end, `w - 1`,
/// and cell `w - 1` takes its right neighbor from the far left end, 0.
pub proof fn lemma_ring_indices(i: int, w: int)
    requires
        w >= 1,
        0 <= i < w,
    ensures
        left_index(i, w) == if i == 0 { w - 1 } else { i - 1 },
        right_index(i, w) == if i == w - 1 { 0 } else { i + 1 },
{
    if i == 0 {
        lemma_small_mod((w - 1) as nat, w as nat);
    } else {
        lemma_mod_multiples_vanish(1, i - 1, w);
        lemma_small_mod((i - 1) as nat, w as nat);
    }
    if i == w - 1 {
        lemma_mod_multiples_vanish(1, 0, w);
        lemma_small_mod(0nat, w as nat);
    } else {
        lemma_small_mod((i + 1) as nat, w as nat);
    }
}

/// A rule's output is always binary, whatever the pattern.
pub proof fn lemma_rule_bit_is_bit(rule: u8, p: u8)
    ensures
        is_bit(rule_bit(rule, p)),
{
    assert((rule >> p) & 1 == 0 || (rule >> p) & 1 == 1) by (bit_vector);
}

/// Every cell of a stepped generation is binary.
pub proof fn lemma_next_generation_all_bits(rule: u8, g: Seq<u8>)
    ensures
        all_bits(next_generation(rule, g)),
{
    assert forall|i: int| 0 <= i < next_generation(rule, g).len() implies is_bit(
        #[trigger] next_generation(rule, g)[i],
    ) by {
        lemma_rule_bit_is_bit(
            rule,
            pattern(g[left_index(i, g.len() as int)], g[i], g[right_index(i, g.len() as int)]),
        );
    }
}

/// A generation's deep view is its view: the cells are plain bytes.
proof fn lemma_row_deep_view(g: Vec<u8>)
    ensures
        g.deep_view() == g@,
{
    assert(g.deep_view() =~= g@);
}

/// Indexing the deep view of a history reaches the row's own view.
proof fn lemma_history_index(h: Vec<Vec<u8>>, i: int)
    requires
        0 <= i < h@.len(),
    ensures
        h.deep_view()[i] == h@[i]@,
{
    lemma_row_deep_view(h@[i]);
}

/// The history after one step: the successor of the newest generation is
/// appended, and if a bound `h` is configured and now exceeded, the oldest
/// generation is dropped, sliding the window forward.
pub open spec fn stepped_history(rule: u8, hist: Seq<Seq<u8>>, bound: Option<usize>) -> Seq<
    Seq<u8>,
>
    recommends
        hist.len() >= 1,
{
    let appended = hist.push(next_generation(rule, hist.last()));
    match bound {
        Some(h) => if appended.len() > h {
            appended.drop_first()
        } else {
            appended
        },
        None => appended,
    }
}

/// An elementary cellular automaton: a rule, a fixed width, and the ordered
/// history of generations, oldest first, newest last.
#[derive(Debug)]
pub struct Engine {
    rule: RuleTable,
    width: usize,
    history: Vec<Vec<u8>>,
    history_bound: Option<usize>,
}

impl Engine {
    /// The rule index driving every neighborhood evaluation.
    pub closed spec fn rule_spec(&self) -> u8 {
        self.rule.rule_spec()
    }

    /// The fixed number of cells per generation.
    pub closed spec fn width_spec(&self) -> usize {
        self.width
    }

    /// The configured history bound, if any.
    pub closed spec fn bound_spec(&self) -> Option<usize> {
        self.history_bound
    }

    /// The retained history: a sequence of generations, oldest first.
    pub closed spec fn history_spec(&self) -> Seq<Seq<u8>> {
        self.history.deep_view()
    }

    /// Well-formedness: the history is never empty, every retained generation
    /// has exactly `width` binary cells, and a configured bound is at least 1
    /// and never exceeded.
    pub open spec fn wf(&self) -> bool {
        &&& self.width_spec() >= 1
        &&& self.history_spec().len() >= 1
        &&& forall|i: int|
            0 <= i < self.history_spec().len() ==> (#[trigger] self.history_spec()[i]).len()
                == self.width_spec() && all_bits(self.history_spec()[i])
        &&& match self.bound_spec() {
            Some(h) => h >= 1 && self.history_spec().len() <= h,
            None => true,
        }
    }

    /// Builds an engine whose history holds exactly the seed generation.
    /// A width of 0 is rejected, as is a seed whose length differs from the
    /// width; width 1 is accepted, the sole cell being its own left and right
    /// neighbor.
    pub fn new(
        width: usize,
        initial: Vec<u8>,
        rule: RuleTable,
        history_bound: Option<usize>,
    ) -> (result: Result<Engine, AutomatonError>)
        requires
            all_bits(initial@),
            history_bound matches Some(h) ==> h >= 1,
        ensures
            result is Ok <==> (width >= 1 && initial@.len() == width),
            width == 0 ==> (result matches Err(e) && e == AutomatonError::InvalidWidth),
            width >= 1 && initial@.len() != width ==> (result matches Err(e) && e
                == AutomatonError::LengthMismatch),
            result matches Ok(engine) ==> {
                &&& engine.wf()
                &&& engine.width_spec() == width
                &&& engine.rule_spec() == rule.rule_spec()
                &&& engine.bound_spec() == history_bound
                &&& engine.history_spec() == seq![initial@]
            },
    {
        if width == 0 {
            Err(AutomatonError::InvalidWidth)
        } else if initial.len() != width {
            Err(AutomatonError::LengthMismatch)
        } else {
            let mut history: Vec<Vec<u8>> = Vec::new();
            history.push(initial);
            let engine = Engine { rule, width, history, history_bound };
            proof {
                assert(engine.history_spec() =~~= seq![initial@]);
            }
            Ok(engine)
        }
    }

    /// Advances the automaton one generation and returns the generation just
    /// produced. Every cell of the new generation is computed from the
    /// pre-step snapshot; the history gains the new generation and, when a
    /// configured bound would be exceeded, loses its oldest entry.
    pub fn step(&mut self) -> (generation: Vec<u8>)
        requires
            old(self).wf(),
        ensures
            final(self).wf(),
            final(self).width_spec() == old(self).width_spec(),
            final(self).rule_spec() == old(self).rule_spec(),
            final(self).bound_spec() == old(self).bound_spec(),
            generation@ == next_generation(old(self).rule_spec(), old(self).history_spec().last()),
            generation@.len() == old(self).width_spec(),
            final(self).history_spec() == stepped_history(
                old(self).rule_spec(),
                old(self).history_spec(),
                old(self).bound_spec(),
            ),
    {
        let last = self.history.len() - 1;
        proof {
            lemma_history_index(self.history, last as int);
        }
        let next = next_row(&self.rule, &self.history[last]);
        let generation = copy_row(&next);
        proof {
            assert(generation@ == next_generation(
                old(self).rule_spec(),
                old(self).history_spec().last(),
            ));
            lemma_next_generation_all_bits(old(self).rule_spec(), old(self).history_spec().last());
        }
        self.history.push(next);
        proof {
            assert(self.history.deep_view() =~~= old(self).history_spec().push(generation@));
        }
        if let Some(h) = self.history_bound {
            if self.history.len() > h {
                let ghost before = self.history.deep_view();
                self.history.remove(0);
                proof {
                    assert(self.history.deep_view() =~~= before.drop_first());
                }
            }
        }
        generation
    }

    /// The most recently produced generation (the seed, before any step).
    pub fn current_generation(&self) -> (generation: Vec<u8>)
        requires
            self.wf(),
        ensures
            generation@ == self.history_spec().last(),
    {
        let last = self.history.len() - 1;
        proof {
            lemma_history_index(self.history, last as int);
        }
        copy_row(&self.history[last])
    }

    /// The full retained window of generations, oldest first.
    pub fn history_snapshot(&self) -> (snapshot: Vec<Vec<u8>>)
        ensures
            snapshot.deep_view() == self.history_spec(),
    {
        let mut snapshot: Vec<Vec<u8>> = Vec::new();
        let mut i: usize = 0;
        while i < self.history.len()
            invariant
                i <= self.history@.len(),
                snapshot.deep_view() =~~= self.history.deep_view().take(i as int),
            decreases self.history@.len() - i,
        {
            proof {
                lemma_history_index(self.history, i as int);
            }
            let ghost snapshot_before = snapshot.deep_view();
            let row = copy_row(&self.history[i]);
            proof {
                lemma_row_deep_view(row);
            }
            snapshot.push(row);
            i += 1;
            proof {
                assert(snapshot.deep_view() =~~= snapshot_before.push(row@));
            }
        }
        proof {
            assert(snapshot.deep_view() =~~= self.history_spec());
        }
        snapshot
    }

    /// The automaton's width.
    pub fn width(&self) -> (width: usize)
        ensures
            width == self.width_spec(),
    {
        self.width
    }

    /// The automaton's rule index.
    pub fn rule_index(&self) -> (index: u8)
        ensures
            index == self.rule_spec(),
    {
        self.rule.rule_index()
    }
}

/// History-bound law: a well-formed engine configured with bound `h` never
/// retains more than `h` generations, and never fewer than one.
pub proof fn lemma_history_bounded(engine: &Engine, h: usize)
    requires
        engine.wf(),
        engine.bound_spec() == Some(h),
    ensures
        1 <= engine.history_spec().len() <= h,
{
}

/// Determinism law: the outcome of a step is a function of the rule, the
/// history, and the bound alone, so two engines constructed from the same
/// width, seed, and rule index step through identical histories, however many
/// times they are stepped.
pub proof fn lemma_step_deterministic(
    rule: u8,
    hist1: Seq<Seq<u8>>,
    hist2: Seq<Seq<u8>>,
    bound: Option<usize>,
)
    requires
        hist1 == hist2,
    ensures
        next_generation(rule, hist1.last()) == next_generation(rule, hist2.last()),
        stepped_history(rule, hist1, bound) == stepped_history(rule, hist2, bound),
{
}

/// Computes the generation that follows `current` under `rule`, reading every
/// neighborhood from `current` alone.
pub fn next_row(rule: &RuleTable, current: &Vec<u8>) -> (next: Vec<u8>)
    requires
        current@.len() >= 1,
        all_bits(current@),
    ensures
        next@ == next_generation(rule.rule_spec(), current@),
{
    let w = current.len();
    let mut next: Vec<u8> = Vec::new();
    let mut i: usize = 0;
    while i < w
        invariant
            1 <= w == current@.len(),
            all_bits(current@),
            i <= w,
            next@.len() == i,
            forall|j: int| 0 <= j < i ==> next@[j] == next_cell(rule.rule_spec(), current@, j),
        decreases w - i,
    {
        proof {
            lemma_ring_indices(i as int, w as int);
        }
        let left = if i == 0 {
            current[w - 1]
        } else {
            current[i - 1]
        };
        let right = if i == w - 1 {
            current[0]
        } else {
            current[i + 1]
        };
        let cell = rule.lookup(left, current[i], right);
        next.push(cell);
        i += 1;
    }
    proof {
        assert(next@ =~= next_generation(rule.rule_spec(), current@));
    }
    next
}

/// Copies a generation cell by cell.
fn copy_row(g: &Vec<u8>) -> (copy: Vec<u8>)
    ensures
        copy@ == g@,
{
    let mut copy: Vec<u8> = Vec::new();
    let mut i: usize = 0;
    while i < g.len()
        invariant
            i <= g@.len(),
            copy@ =~= g@.take(i as int),
        decreases g@.len() - i,
    {
        copy.push(g[i]);
        i += 1;
    }
    proof {
        assert(copy@ =~= g@);
    }
    copy
}

} // verus!
