//! Laconic oblivious transfer over KZG polynomial commitments on BN254,
//! with amortized computation of every opening proof of a committed vector.

pub mod bits;
pub mod domain;
pub mod error;
pub mod field;
pub mod fk;
pub mod group;
pub mod ot;
pub mod params;
pub mod trinity;
pub mod wire;

pub use bits::{bools_to_u16, one, u8_vec_to_vec_bool};
pub use domain::{coeff_to_lagrange, lagrange_to_coeff, MAX_LOG_SIZE};
pub use error::{ConfigError, DecodeError, LotError, Part};
pub use field::{eval_polynomial, poly_divide, Scalar};
pub use fk::{all_openings_fk, compare_fk_vs_kzg, kzg_open, precompute_y};
pub use group::{G1Elem, G2Elem};
pub use ot::{Choice, LaconicOTRecv, LaconicOTSender, Msg, TrinityCom, MSG_SIZE};
pub use wire::{deserialize_ciphertexts, serialize_ciphertexts, SerializableMsg};
pub use params::{CommitmentKey, KZGType, LaconicParams};
pub use trinity::{Trinity, TrinityInnerParams};
