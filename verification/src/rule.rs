use vstd::prelude::*;

verus! {

/// The mathematical content of a rule: the neighbour counts that give birth
/// to a dead cell and those that keep a live cell alive.
pub struct RuleModel {
    pub birth: Set<int>,
    pub survival: Set<int>,
}

impl RuleModel {
    /// Both sets hold neighbour counts only, that is numbers from 0 to 8.
    pub open spec fn wf(self) -> bool {
        &&& forall|n: int| self.birth.contains(n) ==> 0 <= n <= 8
        &&& forall|n: int| self.survival.contains(n) ==> 0 <= n <= 8
    }

    /// The next state of a cell whose state is `previous` and which has
    /// `count` live neighbours.
    pub open spec fn lives(self, previous: bool, count: int) -> bool {
        if previous {
            self.survival.contains(count)
        } else {
            self.birth.contains(count)
        }
    }

    /// Conway's rule: birth on 3 neighbours, survival on 2 or 3.
    pub open spec fn life() -> RuleModel {
        RuleModel { birth: set![3int], survival: set![2int, 3int] }
    }
}

/// The numbers that occur in `counts`, as a set.
pub open spec fn count_set(counts: Seq<u8>) -> Set<int> {
    Set::new(|n: int| exists|i: int| 0 <= i < counts.len() && counts[i] as int == n)
}

/// A birth/survival rule held as two lookup tables indexed by neighbour count.
#[derive(Clone, Copy, Debug)]
pub struct Rule {
    birth: [bool; 9],
    survival: [bool; 9],
}

impl View for Rule {
    type V = RuleModel;

    closed spec fn view(&self) -> RuleModel {
        RuleModel {
            birth: Set::new(|n: int| 0 <= n < 9 && self.birth[n]),
            survival: Set::new(|n: int| 0 <= n < 9 && self.survival[n]),
        }
    }
}

impl Rule {
    /// The rule under which a dead cell is born on the counts of `birth`
    /// and a live cell stays alive on those of `survival`.
    pub fn new(birth: Vec<u8>, survival: Vec<u8>) -> (rule: Rule)
        requires
            forall|i: int| 0 <= i < birth.len() ==> birth[i] <= 8,
            forall|i: int| 0 <= i < survival.len() ==> survival[i] <= 8,
        ensures
            rule@.wf(),
            rule@.birth == count_set(birth@),
            rule@.survival == count_set(survival@),
    {
        let mut b = [false; 9];
        let mut s = [false; 9];
        for k in 0..birth.len()
            invariant
                forall|i: int| 0 <= i < birth.len() ==> birth[i] <= 8,
                forall|n: int| 0 <= n < 9 ==> (b[n] <==> exists|i: int| 0 <= i < k && birth[i] as int == n),
        {
            b[birth[k] as usize] = true;
        }
        for k in 0..survival.len()
            invariant
                forall|i: int| 0 <= i < survival.len() ==> survival[i] <= 8,
                forall|n: int| 0 <= n < 9 ==> (s[n] <==> exists|i: int| 0 <= i < k && survival[i] as int == n),
        {
            s[survival[k] as usize] = true;
        }
        let rule = Rule { birth: b, survival: s };
        proof {
            assert(rule@.birth =~= count_set(birth@));
            assert(rule@.survival =~= count_set(survival@));
        }
        rule
    }

    /// The next state of a cell that is alive or not, as `previous` says,
    /// and has `nb_live_neighbors` live neighbours.
    pub fn lives(&self, previous: bool, nb_live_neighbors: u8) -> (next: bool)
        requires
            nb_live_neighbors <= 8,
        ensures
            next == self@.lives(previous, nb_live_neighbors as int),
    {
        if previous {
            self.survival[nb_live_neighbors as usize]
        } else {
            self.birth[nb_live_neighbors as usize]
        }
    }
}

} // verus!
