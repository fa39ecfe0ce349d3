pub mod cutting;
pub mod stock;
pub mod comparator;
pub mod cut_list_thread;
pub mod logger;
pub mod progress;
pub mod arrangement;
pub mod service;
pub mod fitting;
pub mod edge_banding;
pub mod sequential;
