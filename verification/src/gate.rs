//! Gate library: the action of each named unitary on a tuple of amplitudes.
//!
//! A 1-qubit gate maps the pair of amplitudes for the target qubit being 0
//! and 1; a 2-qubit gate maps the 4-tuple indexed by the two targeted
//! qubits' bits (the first-named qubit is the low bit of the tuple label);
//! the Toffoli gate maps the corresponding 8-tuple.  Every function here is
//! pure, and every one except the Hadamard is a signed permutation of
//! coordinates, so it preserves the squared-magnitude pair of the tuple
//! exactly; the Hadamard doubles it.

use crate::amplitude::{bounded, coord_limit, lemma_rotation_norms, norm_p, norm_q, Amp};
use vstd::prelude::*;

verus! {

/// The rotation-like 1-qubit gates (every 1-qubit gate but the Hadamard).
#[derive(Clone, Copy, PartialEq, Eq, Structural, Debug)]
pub enum OneQubitGate {
    PauliX,
    PauliY,
    PauliZ,
    SGate,
    TGate,
}

/// New amplitude for target bit 0, given the pair `(x, y)`.
pub open spec fn gate1_out0(g: OneQubitGate, x: Amp, y: Amp) -> Amp {
    match g {
        OneQubitGate::PauliX => y,
        OneQubitGate::PauliY => Amp::mul_neg_i_spec(y),
        OneQubitGate::PauliZ => x,
        OneQubitGate::SGate => x,
        OneQubitGate::TGate => x,
    }
}

/// New amplitude for target bit 1, given the pair `(x, y)`.
pub open spec fn gate1_out1(g: OneQubitGate, x: Amp, y: Amp) -> Amp {
    match g {
        OneQubitGate::PauliX => x,
        OneQubitGate::PauliY => Amp::mul_i_spec(x),
        OneQubitGate::PauliZ => Amp::neg_spec(y),
        OneQubitGate::SGate => Amp::mul_i_spec(y),
        OneQubitGate::TGate => Amp::mul_w_spec(y),
    }
}

/// Pauli-X: swap the pair.
pub fn pauli_x(amplitude0: Amp, amplitude1: Amp) -> (r: (Amp, Amp))
    ensures
        r.0 == gate1_out0(OneQubitGate::PauliX, amplitude0, amplitude1),
        r.1 == gate1_out1(OneQubitGate::PauliX, amplitude0, amplitude1),
{
    (amplitude1, amplitude0)
}

/// Pauli-Y: `(x, y) -> (-i*y, i*x)`.
pub fn pauli_y(amplitude0: Amp, amplitude1: Amp) -> (r: (Amp, Amp))
    requires
        bounded(amplitude0, coord_limit()),
        bounded(amplitude1, coord_limit()),
    ensures
        r.0 == gate1_out0(OneQubitGate::PauliY, amplitude0, amplitude1),
        r.1 == gate1_out1(OneQubitGate::PauliY, amplitude0, amplitude1),
{
    (amplitude1.mul_neg_i(), amplitude0.mul_i())
}

/// Pauli-Z: negate the bit-1 amplitude.
pub fn pauli_z(amplitude0: Amp, amplitude1: Amp) -> (r: (Amp, Amp))
    requires
        bounded(amplitude1, coord_limit()),
    ensures
        r.0 == gate1_out0(OneQubitGate::PauliZ, amplitude0, amplitude1),
        r.1 == gate1_out1(OneQubitGate::PauliZ, amplitude0, amplitude1),
{
    (amplitude0, amplitude1.neg())
}

/// S: multiply the bit-1 amplitude by `i`.
pub fn s(amplitude0: Amp, amplitude1: Amp) -> (r: (Amp, Amp))
    requires
        bounded(amplitude1, coord_limit()),
    ensures
        r.0 == gate1_out0(OneQubitGate::SGate, amplitude0, amplitude1),
        r.1 == gate1_out1(OneQubitGate::SGate, amplitude0, amplitude1),
{
    (amplitude0, amplitude1.mul_i())
}

/// T: multiply the bit-1 amplitude by `w = e^{i*pi/4}`.
pub fn t(amplitude0: Amp, amplitude1: Amp) -> (r: (Amp, Amp))
    requires
        bounded(amplitude1, coord_limit()),
    ensures
        r.0 == gate1_out0(OneQubitGate::TGate, amplitude0, amplitude1),
        r.1 == gate1_out1(OneQubitGate::TGate, amplitude0, amplitude1),
{
    (amplitude0, amplitude1.mul_w())
}

/// Dispatch one of the rotation-like 1-qubit gates.
pub fn apply_gate1(g: OneQubitGate, x: Amp, y: Amp) -> (r: (Amp, Amp))
    requires
        bounded(x, coord_limit()),
        bounded(y, coord_limit()),
    ensures
        r.0 == gate1_out0(g, x, y),
        r.1 == gate1_out1(g, x, y),
{
    match g {
        OneQubitGate::PauliX => pauli_x(x, y),
        OneQubitGate::PauliY => pauli_y(x, y),
        OneQubitGate::PauliZ => pauli_z(x, y),
        OneQubitGate::SGate => s(x, y),
        OneQubitGate::TGate => t(x, y),
    }
}

/// Every rotation-like 1-qubit gate preserves the squared-magnitude pair of
/// the amplitude pair, and keeps the coordinate bound.
pub proof fn lemma_gate1_norm(g: OneQubitGate, x: Amp, y: Amp)
    requires
        bounded(x, coord_limit()),
        bounded(y, coord_limit()),
    ensures
        norm_p(gate1_out0(g, x, y)) + norm_p(gate1_out1(g, x, y)) == norm_p(x) + norm_p(y),
        norm_q(gate1_out0(g, x, y)) + norm_q(gate1_out1(g, x, y)) == norm_q(x) + norm_q(y),
        bounded(gate1_out0(g, x, y), coord_limit()),
        bounded(gate1_out1(g, x, y), coord_limit()),
{
    lemma_rotation_norms(x);
    lemma_rotation_norms(y);
}

/// Hadamard: `(x, y) -> ((x+y)/sqrt(2), (x-y)/sqrt(2))`, with the global
/// factor `1/sqrt(2)` left to the implicit normalization, so the stored
/// pair is `(x+y, x-y)`.
pub fn hadamard(amplitude0: Amp, amplitude1: Amp) -> (r: (Amp, Amp))
    requires
        bounded(amplitude0, coord_limit()),
        bounded(amplitude1, coord_limit()),
    ensures
        r.0 == Amp::add_spec(amplitude0, amplitude1),
        r.1 == Amp::sub_spec(amplitude0, amplitude1),
        bounded(r.0, 2 * coord_limit()),
        bounded(r.1, 2 * coord_limit()),
{
    (amplitude0.add(amplitude1), amplitude0.sub(amplitude1))
}

/// The 2-qubit gates.  The 4-tuple label `b1 b0` has `b0` the bit of the
/// first-named qubit (the control, for CNOT and CZ) and `b1` the bit of the
/// second (the target).
#[derive(Clone, Copy, PartialEq, Eq, Structural, Debug)]
pub enum TwoQubitGate {
    Cnot,
    Cz,
    SwapGate,
}

pub open spec fn gate2_out(g: TwoQubitGate, x00: Amp, x01: Amp, x10: Amp, x11: Amp) -> (
    Amp,
    Amp,
    Amp,
    Amp,
) {
    match g {
        TwoQubitGate::Cnot => (x00, x11, x10, x01),
        TwoQubitGate::Cz => (x00, x01, x10, Amp::neg_spec(x11)),
        TwoQubitGate::SwapGate => (x00, x10, x01, x11),
    }
}

/// CNOT: with the control on the tuple's low bit, exchange the two
/// control-on slots so the target bit flips exactly when the control is 1.
pub fn cnot(amplitude00: Amp, amplitude01: Amp, amplitude10: Amp, amplitude11: Amp) -> (r: (
    Amp,
    Amp,
    Amp,
    Amp,
))
    ensures
        r == gate2_out(TwoQubitGate::Cnot, amplitude00, amplitude01, amplitude10, amplitude11),
{
    (amplitude00, amplitude11, amplitude10, amplitude01)
}

/// CZ: negate only the both-bits-on slot.
pub fn cz(amplitude00: Amp, amplitude01: Amp, amplitude10: Amp, amplitude11: Amp) -> (r: (
    Amp,
    Amp,
    Amp,
    Amp,
))
    requires
        bounded(amplitude11, coord_limit()),
    ensures
        r == gate2_out(TwoQubitGate::Cz, amplitude00, amplitude01, amplitude10, amplitude11),
{
    (amplitude00, amplitude01, amplitude10, amplitude11.neg())
}

/// SWAP: exchange the mixed slots.
pub fn swap(amplitude00: Amp, amplitude01: Amp, amplitude10: Amp, amplitude11: Amp) -> (r: (
    Amp,
    Amp,
    Amp,
    Amp,
))
    ensures
        r == gate2_out(
            TwoQubitGate::SwapGate,
            amplitude00,
            amplitude01,
            amplitude10,
            amplitude11,
        ),
{
    (amplitude00, amplitude10, amplitude01, amplitude11)
}

/// Dispatch a 2-qubit gate.
pub fn apply_gate2(g: TwoQubitGate, x00: Amp, x01: Amp, x10: Amp, x11: Amp) -> (r: (
    Amp,
    Amp,
    Amp,
    Amp,
))
    requires
        bounded(x11, coord_limit()),
    ensures
        r == gate2_out(g, x00, x01, x10, x11),
{
    match g {
        TwoQubitGate::Cnot => cnot(x00, x01, x10, x11),
        TwoQubitGate::Cz => cz(x00, x01, x10, x11),
        TwoQubitGate::SwapGate => swap(x00, x01, x10, x11),
    }
}

/// Every 2-qubit gate preserves the squared-magnitude pair of its 4-tuple
/// and the coordinate bound.
pub proof fn lemma_gate2_norm(g: TwoQubitGate, x00: Amp, x01: Amp, x10: Amp, x11: Amp)
    requires
        bounded(x00, coord_limit()),
        bounded(x01, coord_limit()),
        bounded(x10, coord_limit()),
        bounded(x11, coord_limit()),
    ensures
        ({
            let (r00, r01, r10, r11) = gate2_out(g, x00, x01, x10, x11);
            &&& norm_p(r00) + norm_p(r01) + norm_p(r10) + norm_p(r11) == norm_p(x00) + norm_p(
                x01,
            ) + norm_p(x10) + norm_p(x11)
            &&& norm_q(r00) + norm_q(r01) + norm_q(r10) + norm_q(r11) == norm_q(x00) + norm_q(
                x01,
            ) + norm_q(x10) + norm_q(x11)
            &&& bounded(r00, coord_limit()) && bounded(r01, coord_limit()) && bounded(
                r10,
                coord_limit(),
            ) && bounded(r11, coord_limit())
        }),
{
    lemma_rotation_norms(x11);
}

/// Toffoli: in the 8-tuple labelled `b2 b1 b0` (`b0`, `b1` the controls,
/// `b2` the target), exchange the `011` and `111` slots: flip the target
/// exactly when both controls are 1.
pub fn toffoli(
    amplitude000: Amp,
    amplitude001: Amp,
    amplitude010: Amp,
    amplitude011: Amp,
    amplitude100: Amp,
    amplitude101: Amp,
    amplitude110: Amp,
    amplitude111: Amp,
) -> (r: (Amp, Amp, Amp, Amp, Amp, Amp, Amp, Amp))
    ensures
        r == (
            amplitude000,
            amplitude001,
            amplitude010,
            amplitude111,
            amplitude100,
            amplitude101,
            amplitude110,
            amplitude011,
        ),
{
    (
        amplitude000,
        amplitude001,
        amplitude010,
        amplitude111,
        amplitude100,
        amplitude101,
        amplitude110,
        amplitude011,
    )
}

} // verus!
