//! The stock panels from which sheets are cut for one solution.

use vstd::prelude::*;
use crate::model::tile::TileDimensions;

verus! {

/// A set of stock panels to cut from, in the order in which they are used.
#[derive(Debug)]
pub struct StockSolution {
    pub stock_tile_dimensions: Vec<TileDimensions>,
}

impl StockSolution {
    /// A stock set holding the given panels.
    pub fn new(stock_tile_dimensions: Vec<TileDimensions>) -> (s: StockSolution)
        ensures
            s.stock_tile_dimensions@ == stock_tile_dimensions@,
    {
        StockSolution { stock_tile_dimensions }
    }

    /// The stock panels.
    pub fn get_stock_tile_dimensions(&self) -> (r: &Vec<TileDimensions>)
        ensures
            r@ == self.stock_tile_dimensions@,
    {
        &self.stock_tile_dimensions
    }
}

} // verus!
