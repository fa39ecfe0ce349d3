pub mod tile;
pub mod tile_node;
pub mod cut;
pub mod mosaic;
pub mod placement;
pub mod solution;
pub mod request;
pub mod response;
pub mod tile_groups;
pub mod tile_totals;
pub mod tile_validation;
pub mod text;
