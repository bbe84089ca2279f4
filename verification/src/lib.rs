pub mod group_trait;
pub mod ring_trait;

pub mod bigint;
pub mod integer_ring;
pub mod residue_ring;
pub mod residue_ring_number;

pub mod convolution;
pub mod generic_polynomial;
pub mod integer_polynomial;
pub mod utils;
