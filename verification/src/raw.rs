pub mod intrusive;
pub mod parking;
pub mod rc;
pub mod ring;
pub mod slot_word;
pub mod util;
