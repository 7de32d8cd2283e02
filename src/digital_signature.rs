//! A keypair bound to a curve: a secret scalar and its public point.
use crate::bignat::BigNat;
use crate::curve::{Curve, CurvePoint};
use vstd::prelude::*;

verus! {

/// The keys held for a curve: none yet, or a secret with its public point.
pub enum KeyState {
    Uninitialized,
    Complete { secret: BigNat, public_key: CurvePoint },
}

/// Whether `keys` is a complete keypair of `curve`: a secret in `[1, order)`
/// and the public point `secret * G`.
pub open spec fn keypair_of<T: Curve>(keys: KeyState, curve: T) -> bool {
    match keys {
        KeyState::Complete { secret, public_key } => {
            &&& 1 <= secret@ < curve.order_spec()
            &&& public_key@ == crate::curve::scalar_mul(
                secret@,
                curve.generator_spec(),
                curve.modulus_spec(),
                curve.a_spec(),
            )
        },
        KeyState::Uninitialized => false,
    }
}

/// A curve together with the keypair generated on it. The keys change only
/// through `generate_keypair`, so a secret never stands without its public point.
pub struct Signature<T: Curve> {
    curve: T,
    keys: KeyState,
}

impl<T: Curve> Signature<T> {
    /// The curve the keys belong to.
    pub closed spec fn curve_spec(&self) -> T {
        self.curve
    }

    /// The keys held.
    pub closed spec fn keys_spec(&self) -> KeyState {
        self.keys
    }

    /// A holder for `curve` with no keys yet.
    pub fn new(curve: T) -> (r: Signature<T>)
        ensures
            r.curve_spec() == curve,
            r.keys_spec() is Uninitialized,
    {
        Signature { curve, keys: KeyState::Uninitialized }
    }

    /// The curve the keys belong to.
    pub fn curve(&self) -> (r: &T)
        ensures
            *r == self.curve_spec(),
    {
        &self.curve
    }

    /// Generates a new keypair, if not already present: draws a secret in
    /// `[1, order)` and derives its public point. Existing keys are kept.
    pub fn generate_keypair(&mut self)
        requires
            old(self).curve_spec().order_spec() > 1,
            crate::curve::modulus_ok(old(self).curve_spec().modulus_spec()),
            crate::curve::in_field(
                old(self).curve_spec().generator_spec(),
                old(self).curve_spec().modulus_spec(),
            ),
        ensures
            final(self).curve_spec() == old(self).curve_spec(),
            old(self).keys_spec() is Complete ==> final(self).keys_spec() == old(self).keys_spec(),
            old(self).keys_spec() is Uninitialized ==> keypair_of(
                final(self).keys_spec(),
                final(self).curve_spec(),
            ),
    {
        if let KeyState::Uninitialized = self.keys {
            let secret = self.curve.generate_secret_key();
            let public_key = self.curve.calculate_public_key(secret.clone());
            self.keys = KeyState::Complete { secret, public_key };
        }
    }

    /// The keys held.
    pub fn keys(&self) -> (r: &KeyState)
        ensures
            *r == self.keys_spec(),
    {
        &self.keys
    }

    /// The secret scalar, once generated.
    pub fn secret(&self) -> (r: Option<BigNat>)
        ensures
            match self.keys_spec() {
                KeyState::Complete { secret, .. } => r matches Some(s) && s@ == secret@,
                KeyState::Uninitialized => r is None,
            },
    {
        match &self.keys {
            KeyState::Complete { secret, .. } => Some(secret.clone()),
            KeyState::Uninitialized => None,
        }
    }

    /// The public point, once generated.
    pub fn public_key(&self) -> (r: Option<CurvePoint>)
        ensures
            match self.keys_spec() {
                KeyState::Complete { public_key, .. } => r matches Some(q) && q@ == public_key@,
                KeyState::Uninitialized => r is None,
            },
    {
        match &self.keys {
            KeyState::Complete { public_key, .. } => Some(public_key.clone()),
            KeyState::Uninitialized => None,
        }
    }
}

} // verus!
