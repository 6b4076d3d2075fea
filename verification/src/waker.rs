pub mod cell;
