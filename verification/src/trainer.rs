//! The tabular Q-learning trainer: an epsilon-greedy policy over a small
//! table of action values, and the value update rule.
//!
//! Action values are fixed-point integers in thousandths of a point. The
//! update rule is `Q[s,a] += (reward + DISCOUNT*max_a' Q[s',a'] - Q[s,a])`
//! scaled by the learning rate one tenth, with both rate and discount
//! applied by truncating division toward zero.

use vstd::prelude::*;
use crate::object::{Command, REWARD_LIMIT, spec_command_index, spec_command_list};
use crate::geometry::div_trunc;
use vstd::arithmetic::div_mod::{
    lemma_div_is_ordered, lemma_div_nonincreasing, lemma_div_pos_is_pos,
    lemma_fundamental_div_mod,
};

verus! {

/// Fixed-point sub-units per point of value.
pub const VALUE_SCALE: i64 = 1000;

/// The learning rate is one tenth.
pub const ALPHA_DEN: i64 = 10;

/// The discount factor is ninety-two hundredths.
pub const DISCOUNT_NUM: i64 = 92;
pub const DISCOUNT_DEN: i64 = 100;

/// Stored action values stay within `[0, QVALUE_CAP]`; the update rule
/// provably never leaves this range for rewards up to `REWARD_LIMIT`.
pub const QVALUE_CAP: i64 = 20_000_000_000_000_000;

/// Number of discrete commands.
pub const COMMAND_COUNT: usize = 13;

/// The action values recorded for one state: one optional value per
/// command, in declared command order. An unset slot counts as zero
/// without being materialized.
pub struct QEntry {
    pub vals: Vec<Option<i64>>,
}

pub open spec fn entry_wf(e: QEntry) -> bool {
    &&& e.vals@.len() == COMMAND_COUNT
    &&& forall|a: int| 0 <= a < COMMAND_COUNT ==> match #[trigger] e.vals@[a] {
        Some(v) => 0 <= v <= QVALUE_CAP,
        None => true,
    }
}

/// The Q-table: state-key/entry pairs held sorted by key, each key once.
pub struct QTable {
    pub entries: Vec<(u64, QEntry)>,
}

impl QTable {
    pub open spec fn wf(&self) -> bool {
        &&& forall|i: int| 0 <= i < self.entries@.len()
            ==> entry_wf((#[trigger] self.entries@[i]).1)
        &&& forall|i: int, j: int| 0 <= i < j < self.entries@.len()
            ==> (#[trigger] self.entries@[i]).0 < (#[trigger] self.entries@[j]).0
    }

    /// Whether the table holds an entry for this state.
    pub open spec fn spec_has(self, s: u64) -> bool {
        exists|i: int| 0 <= i < self.entries@.len() && (#[trigger] self.entries@[i]).0 == s
    }

    /// The slots recorded for a held state.
    pub open spec fn spec_entry(self, s: u64) -> Seq<Option<i64>> {
        let i = choose|i: int| 0 <= i < self.entries@.len() && (#[trigger] self.entries@[i]).0
            == s;
        self.entries@[i].1.vals@
    }

    /// The value of action `a` in state `s`; an unset or absent slot is 0.
    pub open spec fn spec_value(self, s: u64, a: int) -> int {
        if self.spec_has(s) {
            match self.spec_entry(s)[a] {
                Some(v) => v as int,
                None => 0,
            }
        } else {
            0
        }
    }

    /// Whether a value is materialized for `(s, a)`.
    pub open spec fn spec_stored(self, s: u64, a: int) -> bool {
        self.spec_has(s) && self.spec_entry(s)[a] is Some
    }

    /// Whether any action value is materialized for `s`.
    pub open spec fn spec_any_stored(self, s: u64) -> bool {
        exists|a: int| 0 <= a < COMMAND_COUNT && self.spec_stored(s, a)
    }
}

/// In a well-formed table the row holding key `entries[i].0` is row `i`.
proof fn lemma_entry_is(t: QTable, i: int)
    requires
        t.wf(),
        0 <= i < t.entries@.len(),
    ensures
        t.spec_has(t.entries@[i].0),
        t.spec_entry(t.entries@[i].0) == t.entries@[i].1.vals@,
{
    let s = t.entries@[i].0;
    assert(t.spec_has(s));
    let j = choose|j: int| 0 <= j < t.entries@.len() && (#[trigger] t.entries@[j]).0 == s;
    if i < j {
        assert(t.entries@[i].0 < t.entries@[j].0);
    } else if j < i {
        assert(t.entries@[j].0 < t.entries@[i].0);
    }
}

/// The greedy maximum of the first `n` action values (unset counting 0).
pub open spec fn spec_max_upto(t: QTable, s: u64, n: int) -> int
    decreases n,
{
    if n <= 0 {
        0
    } else {
        let prev = spec_max_upto(t, s, n - 1);
        let v = t.spec_value(s, n - 1);
        if v > prev {
            v
        } else {
            prev
        }
    }
}

/// `max_a Q[s,a]`, with unset entries defaulting to zero.
pub open spec fn spec_max_q(t: QTable, s: u64) -> int {
    spec_max_upto(t, s, COMMAND_COUNT as int)
}

pub open spec fn spec_opt_val(o: Option<i64>) -> int {
    match o {
        Some(v) => v as int,
        None => 0,
    }
}

/// Index of the best materialized action among the first `n` slots: the
/// highest stored value wins, the first-declared among ties.
pub open spec fn spec_best_upto(e: Seq<Option<i64>>, n: int) -> Option<int>
    decreases n,
{
    if n <= 0 {
        None
    } else {
        let prev = spec_best_upto(e, n - 1);
        match e[n - 1] {
            None => prev,
            Some(v) => match prev {
                None => Some(n - 1),
                Some(b) => if v > spec_opt_val(e[b]) {
                    Some(n - 1)
                } else {
                    prev
                },
            },
        }
    }
}

/// The greedy choice for a state: the best materialized action, the no-op
/// when nothing is materialized.
pub open spec fn spec_best_cmd(t: QTable, s: u64) -> Command {
    if t.spec_has(s) {
        match spec_best_upto(t.spec_entry(s), COMMAND_COUNT as int) {
            Some(b) => spec_command_list()[b],
            None => Command::Stay,
        }
    } else {
        Command::Stay
    }
}

/// The epsilon-greedy policy as a function of the two random draws: a roll
/// under the epsilon percentage, or a state with no materialized action,
/// picks uniformly among the 13 commands; otherwise the greedy choice.
pub open spec fn spec_select(t: QTable, s: u64, eps_pct: u32, roll: u32, idx: u32) -> Command {
    if roll < eps_pct || !t.spec_any_stored(s) {
        spec_command_list()[idx as int]
    } else {
        spec_best_cmd(t, s)
    }
}

/// One application of the update rule, in fixed point: the correction
/// `reward + DISCOUNT*max - q` is scaled by the learning rate with
/// truncating division.
pub open spec fn spec_q_next(q: int, reward: int, m: int) -> int {
    q + div_trunc(
        reward * VALUE_SCALE + (DISCOUNT_NUM * m) / (DISCOUNT_DEN as int) - q,
        ALPHA_DEN as int,
    )
}

impl QTable {
    /// An empty table.
    pub fn new() -> (r: QTable)
        ensures
            r.wf(),
            r.entries@.len() == 0,
            forall|s: u64| !r.spec_has(s),
    {
        QTable { entries: Vec::new() }
    }

    /// How many states hold an entry.
    pub fn len(&self) -> (r: usize)
        ensures
            r == self.entries@.len(),
    {
        self.entries.len()
    }

    /// Row index of a state, if the table holds one.
    fn find_idx(&self, s: u64) -> (r: Option<usize>)
        ensures
            match r {
                Some(i) => i < self.entries@.len() && self.entries@[i as int].0 == s,
                None => !self.spec_has(s),
            },
    {
        let n = self.entries.len();
        let mut i: usize = 0;
        while i < n
            invariant
                n == self.entries@.len(),
                0 <= i <= n,
                forall|j: int| 0 <= j < i ==> (#[trigger] self.entries@[j]).0 != s,
            decreases n - i,
        {
            if self.entries[i].0 == s {
                return Some(i);
            }
            i += 1;
        }
        None
    }

    /// Whether the table holds an entry for this state.
    pub fn contains_state(&self, s: u64) -> (r: bool)
        ensures
            r == self.spec_has(s),
    {
        match self.find_idx(s) {
            Some(_) => true,
            None => false,
        }
    }

    /// The value of slot `a` in state `s` (zero if unset or absent).
    fn value_at(&self, s: u64, a: usize) -> (v: i64)
        requires
            self.wf(),
            a < COMMAND_COUNT,
        ensures
            v as int == self.spec_value(s, a as int),
            0 <= v <= QVALUE_CAP,
    {
        match self.find_idx(s) {
            Some(i) => {
                proof {
                    lemma_entry_is(*self, i as int);
                }
                let e = &self.entries[i].1;
                match e.vals[a] {
                    Some(v) => v,
                    None => 0,
                }
            },
            None => 0,
        }
    }

    /// The value recorded for a command in a state (zero if unset).
    pub fn lookup(&self, s: u64, cmd: Command) -> (v: i64)
        requires
            self.wf(),
        ensures
            v as int == self.spec_value(s, spec_command_index(cmd)),
    {
        self.value_at(s, cmd.index())
    }

    /// Whether any action value is materialized for `s`.
    pub fn any_stored(&self, s: u64) -> (r: bool)
        requires
            self.wf(),
        ensures
            r == self.spec_any_stored(s),
    {
        match self.find_idx(s) {
            Some(i) => {
                proof {
                    lemma_entry_is(*self, i as int);
                }
                let e = &self.entries[i].1;
                let mut a: usize = 0;
                while a < COMMAND_COUNT
                    invariant
                        self.wf(),
                        (i as int) < self.entries@.len(),
                        self.entries@[i as int].0 == s,
                        self.spec_entry(s) == self.entries@[i as int].1.vals@,
                        e == &self.entries@[i as int].1,
                        e.vals@.len() == COMMAND_COUNT,
                        0 <= a <= COMMAND_COUNT,
                        forall|b: int| 0 <= b < a ==> !(#[trigger] e.vals@[b] is Some),
                    decreases COMMAND_COUNT - a,
                {
                    if e.vals[a].is_some() {
                        proof {
                            assert(self.spec_stored(s, a as int));
                        }
                        return true;
                    }
                    a += 1;
                }
                proof {
                    assert forall|b: int| 0 <= b < COMMAND_COUNT implies
                        !self.spec_stored(s, b) by {
                        assert(!(e.vals@[b] is Some));
                    }
                }
                false
            },
            None => {
                false
            },
        }
    }

    /// `max_a Q[s,a]`, unset slots counting zero.
    pub fn max_value(&self, s: u64) -> (m: i64)
        requires
            self.wf(),
        ensures
            m as int == spec_max_q(*self, s),
            0 <= m <= QVALUE_CAP,
    {
        let mut m: i64 = 0;
        let mut a: usize = 0;
        while a < COMMAND_COUNT
            invariant
                self.wf(),
                0 <= a <= COMMAND_COUNT,
                m as int == spec_max_upto(*self, s, a as int),
                0 <= m <= QVALUE_CAP,
            decreases COMMAND_COUNT - a,
        {
            let v = self.value_at(s, a);
            if v > m {
                m = v;
            }
            a += 1;
        }
        m
    }

    /// The greedy choice: the first-declared highest-valued materialized
    /// action, or the no-op when the state has nothing materialized.
    pub fn best_command(&self, s: u64) -> (c: Command)
        requires
            self.wf(),
        ensures
            c == spec_best_cmd(*self, s),
            spec_command_list().contains(c),
    {
        proof {
            crate::object::lemma_command_order();
            assert(spec_command_list()[12] == Command::Stay);
        }
        match self.find_idx(s) {
            Some(i) => {
                proof {
                    lemma_entry_is(*self, i as int);
                }
                let e = &self.entries[i].1;
                let mut best: Option<usize> = None;
                let mut bestv: i64 = 0;
                let mut a: usize = 0;
                while a < COMMAND_COUNT
                    invariant
                        self.wf(),
                        (i as int) < self.entries@.len(),
                        self.entries@[i as int].0 == s,
                        self.spec_entry(s) == self.entries@[i as int].1.vals@,
                        e == &self.entries@[i as int].1,
                        e.vals@.len() == COMMAND_COUNT,
                        0 <= a <= COMMAND_COUNT,
                        match best {
                            None => spec_best_upto(e.vals@, a as int) is None,
                            Some(b) => b < COMMAND_COUNT
                                && spec_best_upto(e.vals@, a as int) == Some(b as int)
                                && bestv as int == spec_opt_val(e.vals@[b as int]),
                        },
                    decreases COMMAND_COUNT - a,
                {
                    match e.vals[a] {
                        Some(v) => {
                            match best {
                                None => {
                                    best = Some(a);
                                    bestv = v;
                                },
                                Some(_) => {
                                    if v > bestv {
                                        best = Some(a);
                                        bestv = v;
                                    }
                                },
                            }
                        },
                        None => {},
                    }
                    a += 1;
                }
                match best {
                    Some(b) => {
                        let cmds = Command::iterator();
                        cmds[b]
                    },
                    None => Command::Stay,
                }
            },
            None => Command::Stay,
        }
    }
}

} // verus!

verus! {

/// A fresh row: all thirteen slots unset.
fn empty_entry() -> (e: QEntry)
    ensures
        entry_wf(e),
        forall|a: int| 0 <= a < COMMAND_COUNT ==> (#[trigger] e.vals@[a]) is None,
{
    let mut vals: Vec<Option<i64>> = Vec::new();
    let mut a: usize = 0;
    while a < COMMAND_COUNT
        invariant
            0 <= a <= COMMAND_COUNT,
            vals@.len() == a,
            forall|b: int| 0 <= b < a ==> (#[trigger] vals@[b]) is None,
        decreases COMMAND_COUNT - a,
    {
        vals.push(None);
        a += 1;
    }
    QEntry { vals }
}

impl QTable {
    /// Materializes an empty row for `s` if none is held: afterwards the
    /// table holds `s`, and every value and every materialized slot is as
    /// before.
    pub fn ensure_entry(&mut self, s: u64)
        requires
            old(self).wf(),
        ensures
            final(self).wf(),
            final(self).spec_has(s),
            forall|t: u64| final(self).spec_has(t) == (old(self).spec_has(t) || t == s),
            forall|t: u64, a: int| 0 <= a < COMMAND_COUNT
                ==> final(self).spec_value(t, a) == old(self).spec_value(t, a),
            forall|t: u64, a: int| 0 <= a < COMMAND_COUNT
                ==> final(self).spec_stored(t, a) == old(self).spec_stored(t, a),
            final(self).entries@.len() <= old(self).entries@.len() + 1,
    {
        let n = self.entries.len();
        let mut i: usize = 0;
        while i < n && self.entries[i].0 < s
            invariant
                *self == *old(self),
                n == self.entries@.len(),
                0 <= i <= n,
                forall|j: int| 0 <= j < i ==> (#[trigger] self.entries@[j]).0 < s,
            decreases n - i,
        {
            i += 1;
        }
        if i < n && self.entries[i].0 == s {
            proof {
                assert(self.spec_has(s));
                assert forall|t: u64, a: int| 0 <= a < COMMAND_COUNT
                    implies self.spec_value(t, a) == old(self).spec_value(t, a) by {}
            }
            return;
        }
        proof {
            assert(i < n ==> self.entries@[i as int].0 > s);
            assert(!old(self).spec_has(s));
        }
        self.entries.insert(i, (s, empty_entry()));
        proof {
            let newseq = self.entries@;
            let oldseq = old(self).entries@;
            assert(newseq.len() == oldseq.len() + 1);
            assert forall|j: int| 0 <= j < newseq.len() implies
                entry_wf((#[trigger] newseq[j]).1) by {
                if j < i {
                    assert(newseq[j] == oldseq[j]);
                } else if j == i {
                } else {
                    assert(newseq[j] == oldseq[j - 1]);
                }
            }
            assert forall|j: int, k: int| 0 <= j < k < newseq.len() implies
                (#[trigger] newseq[j]).0 < (#[trigger] newseq[k]).0 by {
                if j < i && k < i {
                    assert(newseq[j] == oldseq[j] && newseq[k] == oldseq[k]);
                } else if j < i && k == i {
                    assert(newseq[j] == oldseq[j]);
                } else if j < i && k > i {
                    assert(newseq[j] == oldseq[j] && newseq[k] == oldseq[k - 1]);
                    assert(oldseq[j].0 < s);
                    if k - 1 == i {
                        assert(oldseq[k - 1].0 > s);
                    } else {
                        assert(oldseq[i as int].0 > s || i == oldseq.len());
                        assert(oldseq[k - 1].0 > s);
                    }
                } else if j == i {
                    assert(newseq[k] == oldseq[k - 1]);
                    assert(k - 1 >= i);
                    if k - 1 == i {
                        assert(oldseq[k - 1].0 > s);
                    } else {
                        assert(oldseq[i as int].0 > s);
                        assert(oldseq[i as int].0 < oldseq[k - 1].0);
                    }
                } else {
                    assert(newseq[j] == oldseq[j - 1] && newseq[k] == oldseq[k - 1]);
                }
            }
            assert(self.wf());
            assert(newseq[i as int].0 == s);
            assert(self.spec_has(s));
            assert forall|t: u64| final(self).spec_has(t) == (old(self).spec_has(t) || t
                == s) by {
                if t == s {
                } else {
                    if old(self).spec_has(t) {
                        let j = choose|j: int| 0 <= j < oldseq.len()
                            && (#[trigger] oldseq[j]).0 == t;
                        if j < i {
                            assert(newseq[j].0 == t);
                        } else {
                            assert(newseq[j + 1].0 == t);
                        }
                    }
                    if self.spec_has(t) {
                        let j = choose|j: int| 0 <= j < newseq.len()
                            && (#[trigger] newseq[j]).0 == t;
                        if j < i {
                            assert(oldseq[j].0 == t);
                        } else {
                            assert(j != i);
                            assert(oldseq[j - 1].0 == t);
                        }
                    }
                }
            }
            assert forall|t: u64, a: int| 0 <= a < COMMAND_COUNT
                implies final(self).spec_value(t, a) == old(self).spec_value(t, a)
                && final(self).spec_stored(t, a) == old(self).spec_stored(t, a) by {
                if t == s {
                    assert(final(self).spec_entry(s) == newseq[i as int].1.vals@) by {
                        lemma_entry_is(*self, i as int);
                    }
                    assert(final(self).spec_entry(s)[a] is None);
                } else {
                    if old(self).spec_has(t) {
                        let j = choose|j: int| 0 <= j < oldseq.len()
                            && (#[trigger] oldseq[j]).0 == t;
                        lemma_entry_is(*old(self), j);
                        if j < i {
                            lemma_entry_is(*self, j);
                        } else {
                            lemma_entry_is(*self, j + 1);
                        }
                    }
                }
            }
        }
    }

    /// Applies the Q-learning update for `(s, cmd)` against reward and the
    /// best value of the successor state: the slot becomes materialized
    /// with exactly `spec_q_next`, and no other slot of any state moves.
    pub fn update_value(&mut self, s: u64, cmd: Command, reward: u64, s2: u64)
        requires
            old(self).wf(),
            reward <= REWARD_LIMIT,
        ensures
            final(self).wf(),
            final(self).spec_value(s, spec_command_index(cmd)) == spec_q_next(
                old(self).spec_value(s, spec_command_index(cmd)),
                reward as int,
                spec_max_q(*old(self), s2),
            ),
            final(self).spec_stored(s, spec_command_index(cmd)),
            forall|t: u64, a: int| (0 <= a < COMMAND_COUNT && (t != s || a
                != spec_command_index(cmd)))
                ==> final(self).spec_value(t, a) == old(self).spec_value(t, a),
            forall|t: u64, a: int| (0 <= a < COMMAND_COUNT && (t != s || a
                != spec_command_index(cmd)))
                ==> final(self).spec_stored(t, a) == old(self).spec_stored(t, a),
            forall|t: u64| final(self).spec_has(t) == (old(self).spec_has(t) || t == s),
    {
        let a = cmd.index();
        let q = self.value_at(s, a);
        let m = self.max_value(s2);
        let rfp = (reward as i64) * VALUE_SCALE;
        let disc = (DISCOUNT_NUM * m) / DISCOUNT_DEN;
        proof {
            lemma_div_pos_is_pos(DISCOUNT_NUM * m, DISCOUNT_DEN as int);
            lemma_div_is_ordered(
                DISCOUNT_NUM * m,
                DISCOUNT_NUM * QVALUE_CAP,
                DISCOUNT_DEN as int,
            );
        }
        let num = rfp + disc - q;
        let delta = if num >= 0 {
            proof {
                lemma_div_pos_is_pos(num as int, ALPHA_DEN as int);
                lemma_fundamental_div_mod(num as int, ALPHA_DEN as int);
            }
            num / ALPHA_DEN
        } else {
            proof {
                lemma_div_pos_is_pos(-num as int, ALPHA_DEN as int);
                lemma_div_is_ordered(-num as int, q as int, ALPHA_DEN as int);
                lemma_div_nonincreasing(q as int, ALPHA_DEN as int);
            }
            -((-num) / ALPHA_DEN)
        };
        let q2 = q + delta;
        proof {
            assert(q2 as int == spec_q_next(
                old(self).spec_value(s, spec_command_index(cmd)),
                reward as int,
                spec_max_q(*old(self), s2),
            ));
            assert(0 <= q2 <= QVALUE_CAP);
        }
        self.ensure_entry(s);
        let ghost mid = *self;
        let i = match self.find_idx(s) {
            Some(i) => i,
            None => {
                proof {
                    assert(false);
                }
                0
            },
        };
        proof {
            lemma_entry_is(*self, i as int);
        }
        let key = self.entries[i].0;
        let mut nv: Vec<Option<i64>> = Vec::new();
        let mut b: usize = 0;
        while b < COMMAND_COUNT
            invariant
                mid.wf(),
                *self == mid,
                (i as int) < self.entries@.len(),
                self.entries@[i as int].0 == s,
                self.spec_entry(s) == self.entries@[i as int].1.vals@,
                self.entries@[i as int].1.vals@.len() == COMMAND_COUNT,
                a < COMMAND_COUNT,
                0 <= b <= COMMAND_COUNT,
                nv@.len() == b,
                forall|c: int| 0 <= c < b ==> #[trigger] nv@[c] == (if c == a {
                    Some(q2)
                } else {
                    self.entries@[i as int].1.vals@[c]
                }),
                0 <= q2 <= QVALUE_CAP,
            decreases COMMAND_COUNT - b,
        {
            if b == a {
                nv.push(Some(q2));
            } else {
                let e = &self.entries[i].1;
                nv.push(e.vals[b]);
            }
            b += 1;
        }
        proof {
            assert(nv@ =~= mid.spec_entry(s).update(a as int, Some(q2)));
        }
        self.entries.set(i, (key, QEntry { vals: nv }));
        proof {
            let newseq = self.entries@;
            let midseq = mid.entries@;
            assert(newseq =~= midseq.update(i as int, (key, QEntry { vals: nv })));
            assert forall|j: int| 0 <= j < newseq.len() implies
                entry_wf((#[trigger] newseq[j]).1) by {
                if j != i {
                    assert(newseq[j] == midseq[j]);
                }
            }
            assert forall|j: int, k: int| 0 <= j < k < newseq.len() implies
                (#[trigger] newseq[j]).0 < (#[trigger] newseq[k]).0 by {
                assert(newseq[j].0 == midseq[j].0 && newseq[k].0 == midseq[k].0);
            }
            assert(self.wf());
            assert forall|t: u64| final(self).spec_has(t) == mid.spec_has(t) by {
                if mid.spec_has(t) {
                    let j = choose|j: int| 0 <= j < midseq.len()
                        && (#[trigger] midseq[j]).0 == t;
                    assert(newseq[j].0 == t);
                }
                if final(self).spec_has(t) {
                    let j = choose|j: int| 0 <= j < newseq.len()
                        && (#[trigger] newseq[j]).0 == t;
                    assert(midseq[j].0 == t);
                }
            }
            lemma_entry_is(*self, i as int);
            assert(final(self).spec_entry(s) == nv@);
            assert(final(self).spec_value(s, a as int) == q2);
            assert forall|t: u64, a2: int| 0 <= a2 < COMMAND_COUNT && (t != s || a2
                != a as int) implies final(self).spec_value(t, a2) == mid.spec_value(
                t,
                a2,
            ) && final(self).spec_stored(t, a2) == mid.spec_stored(t, a2) by {
                if t == s {
                    assert(final(self).spec_entry(s)[a2] == mid.spec_entry(s)[a2]);
                } else {
                    if mid.spec_has(t) {
                        let j = choose|j: int| 0 <= j < midseq.len()
                            && (#[trigger] midseq[j]).0 == t;
                        lemma_entry_is(mid, j);
                        lemma_entry_is(*self, j);
                        assert(j != i);
                        assert(final(self).spec_entry(t) == mid.spec_entry(t));
                    }
                }
            }
        }
    }
}

/// A state with no materialized action value has the no-op as its greedy
/// default, so greedy selection over an empty or untouched table always
/// yields `Stay`; and selection never writes to the table (it only ever
/// borrows it immutably), so the table gains no entry until an update.
pub proof fn lemma_greedy_default(t: QTable, s: u64)
    requires
        !t.spec_any_stored(s),
    ensures
        spec_best_cmd(t, s) == Command::Stay,
{
    if t.spec_has(s) {
        let e = t.spec_entry(s);
        assert forall|a: int| 0 <= a < COMMAND_COUNT implies !(#[trigger] e[a] is Some) by {
            if e[a] is Some {
                assert(t.spec_stored(s, a));
            }
        }
        lemma_best_upto_none(t, s, COMMAND_COUNT as int);
    }
}

proof fn lemma_best_upto_none(t: QTable, s: u64, n: int)
    requires
        t.spec_has(s),
        n <= COMMAND_COUNT,
        forall|a: int| 0 <= a < COMMAND_COUNT ==> !(#[trigger] t.spec_entry(s)[a] is Some),
    ensures
        spec_best_upto(t.spec_entry(s), n) is None,
    decreases n,
{
    if n > 0 {
        lemma_best_upto_none(t, s, n - 1);
    }
}

/// The epsilon-greedy policy as a deterministic function of the random
/// draws `roll` (exploration test, percent scale) and `uniform_idx` (the
/// uniform pick).
pub fn select_action(
    q_table: &QTable,
    state: u64,
    epsilon_pct: u32,
    roll: u32,
    uniform_idx: u32,
) -> (c: Command)
    requires
        q_table.wf(),
        uniform_idx < 13,
    ensures
        c == spec_select(*q_table, state, epsilon_pct, roll, uniform_idx),
        spec_command_list().contains(c),
{
    if roll < epsilon_pct || !q_table.any_stored(state) {
        let cmds = Command::iterator();
        let c = cmds[uniform_idx as usize];
        proof {
            assert(spec_command_list().contains(c));
        }
        c
    } else {
        q_table.best_command(state)
    }
}

/// Selects a command for the current state: with probability epsilon (in
/// percent), or when the state has no materialized action value, a
/// uniformly random command; otherwise the stored-value greedy choice.
pub fn command_select(q_table: &QTable, state: u64, epsilon_pct: u32) -> (c: Command)
    requires
        q_table.wf(),
    ensures
        spec_command_list().contains(c),
        exists|roll: u32, idx: u32| roll < 100 && idx < 13 && c == spec_select(
            *q_table,
            state,
            epsilon_pct,
            roll,
            idx,
        ),
        !(0 < epsilon_pct) && q_table.spec_any_stored(state) ==> c == spec_best_cmd(
            *q_table,
            state,
        ),
{
    let roll = crate::rng::random_below(100);
    if roll < epsilon_pct || !q_table.any_stored(state) {
        let idx = crate::rng::random_below(13);
        let cmds = Command::iterator();
        let c = cmds[idx as usize];
        proof {
            assert(spec_command_list().contains(c));
            assert(c == spec_select(*q_table, state, epsilon_pct, roll, idx));
        }
        c
    } else {
        let c = q_table.best_command(state);
        proof {
            assert(c == spec_select(*q_table, state, epsilon_pct, roll, 0));
        }
        c
    }
}

/// Runs one training episode to its terminal tick (or the tick cap): per
/// tick the policy picks a command, the engine advances, and the visited
/// state's slot is updated against the observed reward and successor.
/// Returns the episode's final score and how many ticks were applied: the
/// loop stops only at the terminal flag or the cap, and an episode that
/// could start has materialized at least the starting state's action value.
pub fn run_episode(
    field: &mut crate::field::Field,
    q_table: &mut QTable,
    epsilon_pct: u32,
    max_ticks: u64,
) -> (r: (u64, u64))
    requires
        old(field).wf(),
        old(q_table).wf(),
    ensures
        final(field).wf(),
        final(q_table).wf(),
        r.0 == final(field).score,
        r.1 <= max_ticks,
        final(field).game_end || r.1 == max_ticks,
        (r.1 == 0) == (old(field).game_end || max_ticks == 0),
        !old(field).game_end && max_ticks > 0 ==> exists|a: int| 0 <= a < COMMAND_COUNT
            && final(q_table).spec_stored(
            crate::statekey::spec_state_key(old(field).player.pos, old(field).enemy_list@),
            a,
        ),
{
    let ghost key0 = crate::statekey::spec_state_key(
        old(field).player.pos,
        old(field).enemy_list@,
    );
    let mut state = field.get_hash();
    let mut ticks: u64 = 0;
    while !field.game_end && ticks < max_ticks
        invariant
            field.wf(),
            q_table.wf(),
            0 <= ticks <= max_ticks,
            ticks == 0 ==> state == key0 && field.game_end == old(field).game_end,
            ticks > 0 ==> !old(field).game_end && max_ticks > 0,
            ticks > 0 ==> exists|a: int| 0 <= a < COMMAND_COUNT && q_table.spec_stored(
                key0,
                a,
            ),
        decreases max_ticks - ticks,
    {
        let cmd = command_select(q_table, state, epsilon_pct);
        let r = field.next_state(cmd);
        let ghost pre = *q_table;
        q_table.update_value(state, cmd, r.1, r.0);
        proof {
            crate::object::lemma_command_order();
            if ticks == 0 {
                assert(q_table.spec_stored(key0, spec_command_index(cmd)));
            } else {
                let a0 = choose|a: int| 0 <= a < COMMAND_COUNT && pre.spec_stored(key0, a);
                if key0 == state && a0 == spec_command_index(cmd) {
                    assert(q_table.spec_stored(key0, spec_command_index(cmd)));
                } else {
                    assert(q_table.spec_stored(key0, a0));
                }
            }
        }
        state = r.0;
        ticks += 1;
    }
    (field.score, ticks)
}


} // verus!
