//! A classical simulator of a small quantum computer.
//!
//! The joint state of `n` qubits is kept as a dense vector of `2^n`
//! amplitudes, indexed so that bit `j` of a basis index (that is,
//! `(index / 2^j) % 2`) is the value of qubit `j`.
//!
//! Every gate offered here (Pauli-X/Y/Z, Hadamard, S, T, CNOT, CZ, SWAP,
//! Toffoli, and the XOR-into-answer oracles) has a matrix whose entries lie
//! in the ring of integer combinations of the eighth roots of unity, scaled
//! by powers of 1/sqrt(2).  Amplitudes are therefore stored exactly, as
//! integer coordinates over the basis `{1, w, w^2, w^3}` with
//! `w = e^{i*pi/4}`, and the vector as a whole is read as implicitly
//! normalized: the physical state is the stored vector divided by its norm.
//! This removes every rounding concern from gate application and makes the
//! Born-rule bookkeeping exact integer arithmetic.

pub mod amplitude;
pub mod bell_state;
pub mod bernstein_vazirani;
pub mod deutsch_jozsa_balanced;
pub mod deutsch_parity;
pub mod encoding;
pub mod evaluation;
pub mod gate;
pub mod ghz_state;
pub mod laws;
pub mod measurement;
pub mod norms;
pub mod oracle;
pub mod random;
pub mod root_two;
pub mod simon;
pub mod simulation;
pub mod state_vector_init;
pub mod state_vector_simulation;
pub mod superdense_coding;
pub mod teleportation;

