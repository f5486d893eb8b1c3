//! Symbolic algebra of operators on composite quantum systems.
//!
//! An operator is a finite sum of terms. Each term is a canonical product of
//! single-site or single-mode operators with a complex coefficient, which is
//! a number or a symbolic expression.
//!
//! - Products: [`spins`] has Pauli products and their relatives,
//!   [`bosons`] and [`fermions`] have products of creation and annihilation
//!   operators, [`mixed_systems`] has products with a factor for each
//!   subsystem. [`indices`], [`modes`], [`site_product`] and [`text`] hold what
//!   the kinds of products share: canonical order, the sign of reordering,
//!   normal ordering, and the text form.
//! - Operators: [`operator`] is the container, [`system`] adds a declared
//!   number of sites or modes, [`open_system`] pairs a Hamiltonian with
//!   Lindblad noise, [`pair`] makes pairs of products the keys of noise
//!   terms, and [`key`] says what a product must offer to be a key.
//! - Mappings and forms: [`mappings`] has the Jordan-Wigner mapping,
//!   [`basis_change`] the changes of the operator basis of spins,
//!   [`encoding`] and [`compact`] the structured and binary forms,
//!   [`display`] the text form, and [`legacy`] the import of documents of
//!   the other schema generation.
//! - [`coefficient`] declares the coefficients, whose arithmetic is done by
//!   `qoqo_calculator`, and [`laws`] states the laws of the algebra.

pub mod arithmetic;
pub mod basis_change;
pub mod bosons;
pub mod coefficient;
pub mod compact;
pub mod display;
pub mod encoding;
pub mod error;
pub mod fermions;
pub mod indices;
pub mod key;
pub mod laws;
pub mod legacy;
pub mod mappings;
pub mod mixed_systems;
pub mod modes;
pub mod open_system;
pub mod operator;
pub mod pair;
pub mod sign;
pub mod site_product;
pub mod spins;
pub mod system;
pub mod text;
