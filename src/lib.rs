pub mod table;
pub mod group;
pub mod dates;
pub mod process;
pub mod aggregator;
pub mod benchmark_framework;
pub mod text;
pub mod data_generator;
pub mod csv;
pub mod output;
pub mod pivot;
