//! Optimisation priorities and the lists in which they rank solutions.

use vstd::prelude::*;
use vstd::string::*;

verus! {

/// A criterion by which solutions are ranked.
#[derive(Debug, Clone, Copy, PartialEq, Eq, Hash, Structural)]
pub enum OptimizationPriority {
    MostTiles,
    LeastWastedArea,
    LeastNbrCuts,
    LeastNbrMosaics,
    BiggestUnusedTileArea,
    MostHVDiscrepancy,
    SmallestCenterOfMassDistToOrigin,
    LeastNbrUnusedTiles,
    MostUnusedPanelArea,
}

/// The display name of each priority.
pub open spec fn priority_name(p: OptimizationPriority) -> Seq<char> {
    match p {
        OptimizationPriority::MostTiles => "Most Tiles"@,
        OptimizationPriority::LeastWastedArea => "Least Wasted Area"@,
        OptimizationPriority::LeastNbrCuts => "Least Number of Cuts"@,
        OptimizationPriority::LeastNbrMosaics => "Least Number of Mosaics"@,
        OptimizationPriority::BiggestUnusedTileArea => "Biggest Unused Tile Area"@,
        OptimizationPriority::MostHVDiscrepancy => "Most H/V Discrepancy"@,
        OptimizationPriority::SmallestCenterOfMassDistToOrigin => "Smallest Center of Mass Distance to Origin"@,
        OptimizationPriority::LeastNbrUnusedTiles => "Least Number of Unused Tiles"@,
        OptimizationPriority::MostUnusedPanelArea => "Most Unused Panel Area"@,
    }
}

/// The list of the final ranking: most panels first, then wasted area and cuts in the
/// order that `optimization_priority` chooses (1: cuts first; anything else: area
/// first), then the other criteria.
pub open spec fn final_list(optimization_priority: i32) -> Seq<OptimizationPriority> {
    let (second, third) = if optimization_priority == 1 {
        (OptimizationPriority::LeastNbrCuts, OptimizationPriority::LeastWastedArea)
    } else {
        (OptimizationPriority::LeastWastedArea, OptimizationPriority::LeastNbrCuts)
    };
    seq![
        OptimizationPriority::MostTiles,
        second,
        third,
        OptimizationPriority::LeastNbrMosaics,
        OptimizationPriority::BiggestUnusedTileArea,
        OptimizationPriority::MostHVDiscrepancy,
        OptimizationPriority::SmallestCenterOfMassDistToOrigin,
        OptimizationPriority::LeastNbrUnusedTiles,
        OptimizationPriority::MostUnusedPanelArea,
    ]
}

/// The list of the intermediate ranking: the first four criteria of the final list.
pub open spec fn intermediate_list(optimization_priority: i32) -> Seq<OptimizationPriority> {
    final_list(optimization_priority).take(4)
}

/// `primary`, then `secondary` if given, then each of `additional` not yet listed.
pub open spec fn custom_list(
    primary: OptimizationPriority,
    secondary: Option<OptimizationPriority>,
    additional: Seq<OptimizationPriority>,
) -> Seq<OptimizationPriority>
    decreases additional.len(),
{
    if additional.len() == 0 {
        match secondary {
            Some(s) => seq![primary, s],
            None => seq![primary],
        }
    } else {
        let before = custom_list(primary, secondary, additional.drop_last());
        if before.contains(additional.last()) { before } else { before.push(additional.last()) }
    }
}

impl OptimizationPriority {
    /// The display name of the priority.
    pub fn to_string(&self) -> (r: String)
        ensures
            r@ == priority_name(*self),
    {
        let s = match self {
            OptimizationPriority::MostTiles => "Most Tiles",
            OptimizationPriority::LeastWastedArea => "Least Wasted Area",
            OptimizationPriority::LeastNbrCuts => "Least Number of Cuts",
            OptimizationPriority::LeastNbrMosaics => "Least Number of Mosaics",
            OptimizationPriority::BiggestUnusedTileArea => "Biggest Unused Tile Area",
            OptimizationPriority::MostHVDiscrepancy => "Most H/V Discrepancy",
            OptimizationPriority::SmallestCenterOfMassDistToOrigin => "Smallest Center of Mass Distance to Origin",
            OptimizationPriority::LeastNbrUnusedTiles => "Least Number of Unused Tiles",
            OptimizationPriority::MostUnusedPanelArea => "Most Unused Panel Area",
        };
        s.to_string()
    }
}

/// Builds priority lists.
pub struct PriorityListFactory;

impl PriorityListFactory {
    /// The criteria of the final ranking, in order.
    pub fn get_final_solution_prioritized_comparator_list(optimization_priority: i32) -> (r: Vec<OptimizationPriority>)
        ensures
            r@ == final_list(optimization_priority),
    {
        let mut priorities: Vec<OptimizationPriority> = Vec::new();
        priorities.push(OptimizationPriority::MostTiles);
        if optimization_priority == 1 {
            priorities.push(OptimizationPriority::LeastNbrCuts);
            priorities.push(OptimizationPriority::LeastWastedArea);
        } else {
            priorities.push(OptimizationPriority::LeastWastedArea);
            priorities.push(OptimizationPriority::LeastNbrCuts);
        }
        priorities.push(OptimizationPriority::LeastNbrMosaics);
        priorities.push(OptimizationPriority::BiggestUnusedTileArea);
        priorities.push(OptimizationPriority::MostHVDiscrepancy);
        priorities.push(OptimizationPriority::SmallestCenterOfMassDistToOrigin);
        priorities.push(OptimizationPriority::LeastNbrUnusedTiles);
        priorities.push(OptimizationPriority::MostUnusedPanelArea);
        proof { assert(priorities@ =~= final_list(optimization_priority)); }
        priorities
    }

    /// The criteria of the intermediate ranking, in order.
    pub fn get_intermediate_solution_prioritized_comparator_list(optimization_priority: i32) -> (r: Vec<OptimizationPriority>)
        ensures
            r@ == intermediate_list(optimization_priority),
    {
        let mut priorities: Vec<OptimizationPriority> = Vec::new();
        priorities.push(OptimizationPriority::MostTiles);
        if optimization_priority == 1 {
            priorities.push(OptimizationPriority::LeastNbrCuts);
            priorities.push(OptimizationPriority::LeastWastedArea);
        } else {
            priorities.push(OptimizationPriority::LeastWastedArea);
            priorities.push(OptimizationPriority::LeastNbrCuts);
        }
        priorities.push(OptimizationPriority::LeastNbrMosaics);
        proof { assert(priorities@ =~= intermediate_list(optimization_priority)); }
        priorities
    }

    /// `primary`, then `secondary` if given, then each additional priority that is not
    /// listed yet.
    pub fn create_custom_priority_list(
        primary: OptimizationPriority,
        secondary: Option<OptimizationPriority>,
        additional: Vec<OptimizationPriority>,
    ) -> (r: Vec<OptimizationPriority>)
        ensures
            r@ == custom_list(primary, secondary, additional@),
    {
        let mut priorities: Vec<OptimizationPriority> = Vec::new();
        priorities.push(primary);
        if let Some(s) = secondary {
            priorities.push(s);
        }
        proof { assert(priorities@ =~= custom_list(primary, secondary, additional@.take(0))); }
        let mut i: usize = 0;
        while i < additional.len()
            invariant
                0 <= i <= additional@.len(),
                priorities@ == custom_list(primary, secondary, additional@.take(i as int)),
            decreases additional@.len() - i,
        {
            let p = additional[i];
            let mut present = false;
            let mut j: usize = 0;
            while j < priorities.len()
                invariant
                    0 <= j <= priorities@.len(),
                    present <==> exists|k: int| 0 <= k < j && priorities@[k] == p,
                decreases priorities@.len() - j,
            {
                if priorities[j] == p {
                    present = true;
                }
                j = j + 1;
            }
            proof {
                assert(additional@.take(i + 1).drop_last() =~= additional@.take(i as int));
                assert(additional@.take(i + 1).last() == p);
                assert(present == priorities@.contains(p));
            }
            if !present {
                priorities.push(p);
            }
            i = i + 1;
        }
        proof { assert(additional@.take(additional@.len() as int) =~= additional@); }
        priorities
    }

    /// Every priority, in declaration order.
    pub fn get_all_priorities() -> (r: Vec<OptimizationPriority>)
        ensures
            r@ == seq![
                OptimizationPriority::MostTiles,
                OptimizationPriority::LeastWastedArea,
                OptimizationPriority::LeastNbrCuts,
                OptimizationPriority::LeastNbrMosaics,
                OptimizationPriority::BiggestUnusedTileArea,
                OptimizationPriority::MostHVDiscrepancy,
                OptimizationPriority::SmallestCenterOfMassDistToOrigin,
                OptimizationPriority::LeastNbrUnusedTiles,
                OptimizationPriority::MostUnusedPanelArea,
            ],
    {
        vec![
            OptimizationPriority::MostTiles,
            OptimizationPriority::LeastWastedArea,
            OptimizationPriority::LeastNbrCuts,
            OptimizationPriority::LeastNbrMosaics,
            OptimizationPriority::BiggestUnusedTileArea,
            OptimizationPriority::MostHVDiscrepancy,
            OptimizationPriority::SmallestCenterOfMassDistToOrigin,
            OptimizationPriority::LeastNbrUnusedTiles,
            OptimizationPriority::MostUnusedPanelArea,
        ]
    }

    /// Whether `priority` is a valid optimisation priority code (0 or 1).
    pub fn is_valid_optimization_priority(priority: i32) -> (b: bool)
        ensures
            b == (priority == 0 || priority == 1),
    {
        priority == 0 || priority == 1
    }
}

/// The custom list starts with the primary priority, then the secondary if given, and
/// lists each additional priority that differs from them exactly once.
pub proof fn lemma_custom_list_shape(
    primary: OptimizationPriority,
    secondary: Option<OptimizationPriority>,
    additional: Seq<OptimizationPriority>,
)
    ensures
        ({
            let l = custom_list(primary, secondary, additional);
            let head: int = if secondary is Some { 2 } else { 1 };
            &&& l.len() >= head
            &&& l[0] == primary
            &&& (secondary matches Some(s) ==> l[1] == s)
            &&& forall|i: int, j: int| head <= i < j < l.len() ==> l[i] != l[j]
            &&& forall|i: int, j: int| 0 <= i < head <= j < l.len() ==> l[i] != l[j]
            &&& forall|x: OptimizationPriority| #[trigger] l.contains(x) <==>
                (x == primary || secondary == Some(x) || additional.contains(x))
        }),
    decreases additional.len(),
{
    if additional.len() > 0 {
        lemma_custom_list_shape(primary, secondary, additional.drop_last());
        let before = custom_list(primary, secondary, additional.drop_last());
        let x = additional.last();
        assert forall|y: OptimizationPriority| additional.contains(y) <==>
            (additional.drop_last().contains(y) || y == x) by {
            if additional.contains(y) {
                let k = choose|k: int| 0 <= k < additional.len() && additional[k] == y;
                if k < additional.len() - 1 {
                    assert(additional.drop_last()[k] == y);
                }
            }
            if additional.drop_last().contains(y) {
                let k = choose|k: int| 0 <= k < additional.drop_last().len() && additional.drop_last()[k] == y;
                assert(additional[k] == y);
            }
            if y == x {
                assert(additional[additional.len() - 1] == y);
            }
        }
        if !before.contains(x) {
            let l = before.push(x);
            assert forall|y: OptimizationPriority| #[trigger] l.contains(y) <==> (before.contains(y) || y == x) by {
                if l.contains(y) {
                    let k = choose|k: int| 0 <= k < l.len() && l[k] == y;
                    if k < before.len() {
                        assert(before[k] == y);
                    }
                }
                if before.contains(y) {
                    let k = choose|k: int| 0 <= k < before.len() && before[k] == y;
                    assert(l[k] == y);
                }
                if y == x {
                    assert(l[l.len() - 1] == y);
                }
            }
        }
    } else {
        match secondary {
            Some(s) => {
                assert(custom_list(primary, secondary, additional) == seq![primary, s]);
            },
            None => {},
        }
    }
}

} // verus!
