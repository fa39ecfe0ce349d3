//! Checking a search's configuration, and ranking, de-duplicating and limiting the
//! solutions it finds.

use vstd::prelude::*;
use vstd::string::*;
use crate::comparator::solution_comparator_enum::SolutionComparator;
use crate::engine::comparator::{
    sort_by_criteria, all_integral, all_measures_fit, sorted_by_chain, keep_first_keys, texts_of,
    keep_first_of_each_key,
};
use crate::engine::cut_list_thread::structs::CutListThread;
use crate::error::OptimizerError;
use crate::model::mosaic::Mosaic;
use crate::model::solution::Solution;
use crate::model::tile::TileDimensions;
use crate::support::{int_decimal, nat_digits, push_i64_decimal, push_nat_digits};

verus! {

/// A panel with a side that is not positive.
pub open spec fn bad_tile(t: TileDimensions) -> bool {
    t.width <= 0 || t.height <= 0
}

/// `k` is the first panel with a side that is not positive.
pub open spec fn first_bad_tile(tiles: Seq<TileDimensions>, k: int) -> bool {
    &&& 0 <= k < tiles.len()
    &&& bad_tile(tiles[k])
    &&& forall|j: int| 0 <= j < k ==> !bad_tile(#[trigger] tiles[j])
}

/// The message that reports panel `k` and its sides.
pub open spec fn bad_tile_message(tiles: Seq<TileDimensions>, k: int) -> Seq<char> {
    "Tile "@ + int_decimal(k) + " has invalid dimensions: "@ + int_decimal(tiles[k].width as int) + "x"@
        + int_decimal(tiles[k].height as int)
}

/// Why the configuration of `t` does not allow a search, checked in order: no panels,
/// negative cut thickness, negative trim, zero accuracy, no stock, then the first panel
/// with a side that is not positive; `None` when it allows one.
pub open spec fn configuration_problem(t: CutListThread) -> Option<Seq<char>> {
    if t.tiles@.len() == 0 {
        Some("No tiles provided for optimization"@)
    } else if t.cut_thickness < 0 {
        Some("Cut thickness cannot be negative"@)
    } else if t.min_trim_dimension < 0 {
        Some("Minimum trim dimension cannot be negative"@)
    } else if t.accuracy_factor == 0 {
        Some("Accuracy factor must be greater than zero"@)
    } else if t.stock_solution is None {
        Some("Stock solution is required"@)
    } else if exists|k: int| first_bad_tile(t.tiles@, k) {
        Some(bad_tile_message(t.tiles@, choose|k: int| first_bad_tile(t.tiles@, k)))
    } else {
        None
    }
}

/// The identifiers of the layouts of the sheets, concatenated in order.
pub open spec fn concatenated_identifier(ms: Seq<Mosaic>) -> Seq<char>
    decreases ms.len(),
{
    if ms.len() == 0 {
        Seq::empty()
    } else {
        concatenated_identifier(ms.drop_last()) + ms.last().root_tile_node.identifier()
    }
}

/// The concatenated identifiers of solutions.
pub open spec fn concatenated_ids(s: Seq<Solution>) -> Seq<Seq<char>> {
    s.map_values(|x: Solution| concatenated_identifier(x.mosaics@))
}

fn invalid_input(details: String) -> (e: OptimizerError)
    ensures
        e == (OptimizerError::InvalidInput { details }),
{
    OptimizerError::InvalidInput { details }
}

impl CutListThread {
    /// Sorts solutions by the given criteria, best first; with no criteria the list
    /// stays as it is.
    pub fn sort_solutions(&self, solutions: &mut Vec<Solution>, comparators: &[SolutionComparator])
        requires
            comparators@.len() > 0 ==> all_integral(comparators@),
            comparators@.len() > 0 ==> all_measures_fit(old(solutions)@),
        ensures
            comparators@.len() == 0 ==> final(solutions)@ == old(solutions)@,
            final(solutions)@.to_multiset() == old(solutions)@.to_multiset(),
            comparators@.len() > 0 ==> sorted_by_chain(comparators@, final(solutions)@),
    {
        if comparators.len() == 0 {
            return;
        }
        sort_by_criteria(solutions, comparators);
    }

    /// Checks that the configuration allows a search; the error says what is wrong.
    pub fn validate_configuration(&self) -> (r: Result<(), OptimizerError>)
        ensures
            match configuration_problem(*self) {
                None => r is Ok,
                Some(m) => r matches Err(OptimizerError::InvalidInput { details }) && details@ == m,
            },
    {
        if self.tiles.len() == 0 {
            return Err(invalid_input("No tiles provided for optimization".to_string()));
        }
        if self.cut_thickness < 0 {
            return Err(invalid_input("Cut thickness cannot be negative".to_string()));
        }
        if self.min_trim_dimension < 0 {
            return Err(invalid_input("Minimum trim dimension cannot be negative".to_string()));
        }
        if self.accuracy_factor == 0 {
            return Err(invalid_input("Accuracy factor must be greater than zero".to_string()));
        }
        if self.stock_solution.is_none() {
            return Err(invalid_input("Stock solution is required".to_string()));
        }
        let mut index: usize = 0;
        while index < self.tiles.len()
            invariant
                0 <= index <= self.tiles@.len(),
                forall|j: int| 0 <= j < index ==> !bad_tile(#[trigger] self.tiles@[j]),
                self.tiles@.len() > 0,
                self.cut_thickness >= 0,
                self.min_trim_dimension >= 0,
                self.accuracy_factor > 0,
                self.stock_solution is Some,
            decreases self.tiles@.len() - index,
        {
            let tile = &self.tiles[index];
            if tile.width <= 0 || tile.height <= 0 {
                let mut details = String::new();
                let ghost d0 = details@;
                details.append("Tile ");
                push_nat_digits(&mut details, index as u64);
                details.append(" has invalid dimensions: ");
                push_i64_decimal(&mut details, tile.width as i64);
                details.append("x");
                push_i64_decimal(&mut details, tile.height as i64);
                proof {
                    reveal_strlit("Tile ");
                    reveal_strlit(" has invalid dimensions: ");
                    reveal_strlit("x");
                    assert(first_bad_tile(self.tiles@, index as int));
                    let k = choose|k: int| first_bad_tile(self.tiles@, k);
                    assert(k == index) by {
                        if k < index {
                            assert(!bad_tile(self.tiles@[k]));
                        } else if k > index {
                            assert(!bad_tile(self.tiles@[index as int]));
                        }
                    }
                    assert(int_decimal(index as int) == nat_digits(index as nat));
                    assert(details@ =~= bad_tile_message(self.tiles@, index as int));
                }
                return Err(invalid_input(details));
            }
            index = index + 1;
        }
        Ok(())
    }

    /// Keeps the first of the solutions with the same concatenated layout identifiers,
    /// in order; returns how many were removed.
    pub fn remove_duplicated(&self, solutions: &mut Vec<Solution>) -> (removed: usize)
        ensures
            final(solutions)@ == keep_first_keys(old(solutions)@, concatenated_ids(old(solutions)@)),
            removed == old(solutions)@.len() - final(solutions)@.len(),
    {
        let mut keys: Vec<String> = Vec::new();
        let mut i: usize = 0;
        while i < solutions.len()
            invariant
                0 <= i <= solutions@.len(),
                solutions@ == old(solutions)@,
                texts_of(keys@) == concatenated_ids(solutions@).take(i as int),
            decreases solutions@.len() - i,
        {
            let mosaics = solutions[i].get_mosaics();
            let mut identifier = String::new();
            let mut j: usize = 0;
            while j < mosaics.len()
                invariant
                    0 <= j <= mosaics@.len(),
                    identifier@ == concatenated_identifier(mosaics@.take(j as int)),
                decreases mosaics@.len() - j,
            {
                proof { assert(mosaics@.take(j + 1).drop_last() =~= mosaics@.take(j as int)); }
                let id = mosaics[j].get_root_tile_node().to_string_identifier();
                identifier.append(id.as_str());
                j = j + 1;
            }
            proof {
                assert(mosaics@.take(mosaics@.len() as int) =~= mosaics@);
                assert(concatenated_ids(solutions@)[i as int] == identifier@);
            }
            let ghost k0 = keys@;
            keys.push(identifier);
            proof {
                assert(texts_of(keys@) =~= texts_of(k0).push(concatenated_ids(solutions@)[i as int]));
                assert(concatenated_ids(solutions@).take(i + 1)
                    =~= concatenated_ids(solutions@).take(i as int).push(concatenated_ids(solutions@)[i as int]));
            }
            i = i + 1;
        }
        proof { assert(concatenated_ids(solutions@).take(i as int) =~= concatenated_ids(solutions@)); }
        keep_first_of_each_key(solutions, &keys)
    }

    /// Keeps at most `accuracy_factor` solutions. Never an error.
    pub fn sort_and_limit_solutions(&self, solutions: &mut Vec<Solution>, _use_thread_comparators: bool)
        -> (r: Result<(), OptimizerError>)
        ensures
            r is Ok,
            final(solutions)@ == if old(solutions)@.len() > self.accuracy_factor {
                old(solutions)@.take(self.accuracy_factor as int)
            } else {
                old(solutions)@
            },
    {
        if solutions.len() > self.accuracy_factor {
            solutions.truncate(self.accuracy_factor);
        }
        Ok(())
    }
}

} // verus!
