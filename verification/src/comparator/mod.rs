pub mod solution_comparators;
pub mod solution_comparator_enum;
pub mod solution_comparator_factory;
pub mod priority_list_factory;
