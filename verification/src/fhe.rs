//! The encrypted-arithmetic boundary.
//!
//! A [`Cell`] owns one shortint ciphertext together with a ghost record of
//! the plaintext it decrypts to and of the key pair it belongs to; the ghost
//! data exists only for specification and is erased at run time, so nothing
//! here can read a plaintext.  Every homomorphic operation is a trusted
//! wrapper around one shortint server-key call, and its contract states the
//! plaintext semantics that the shortint documentation gives for that call.
//!
//! The contracts assume what the surrounding system assumes of the parameter
//! set: the keys are generated from a sound parameter set, so ciphertexts
//! stay within their nominal noise budget and programmable bootstrapping
//! returns the exact table entry.  Noise analysis is outside this library.

use vstd::prelude::*;

verus! {

/// Declares tfhe's shortint ciphertext as an opaque type.
#[verifier::external_type_specification]
#[verifier::external_body]
pub struct ExCiphertext(tfhe::shortint::Ciphertext);

/// Declares tfhe's shortint server key (`ServerKey` instantiates this) as an
/// opaque type.
#[verifier::external_type_specification]
#[verifier::external_body]
#[verifier::reject_recursive_types(AP)]
pub struct ExGenericServerKey<AP>(tfhe::shortint::server_key::GenericServerKey<AP>);

/// Declares the server key's atomic-pattern component as an opaque type.
#[verifier::external_type_specification]
#[verifier::external_body]
pub struct ExAtomicPatternServerKey(tfhe::shortint::atomic_pattern::AtomicPatternServerKey);

/// Declares tfhe's shortint client key (`ClientKey` instantiates this) as an
/// opaque type.
#[verifier::external_type_specification]
#[verifier::external_body]
#[verifier::reject_recursive_types(AP)]
pub struct ExGenericClientKey<AP>(tfhe::shortint::client_key::GenericClientKey<AP>);

/// Declares the client key's atomic-pattern component as an opaque type.
#[verifier::external_type_specification]
#[verifier::external_body]
pub struct ExAtomicPatternClientKey(
    tfhe::shortint::client_key::atomic_pattern::AtomicPatternClientKey,
);

/// Declares tfhe's classic parameter set as an opaque type.
#[verifier::external_type_specification]
#[verifier::external_body]
pub struct ExClassicPBSParameters(tfhe::shortint::parameters::ClassicPBSParameters);

/// The replicated, read-only capability object granting homomorphic
/// operations: a shortint server key plus its advertised message and carry
/// capacities, and a ghost tag for the key pair it was generated with.
pub struct EvalContext {
    sks: tfhe::shortint::ServerKey,
    message_modulus: u64,
    carry_modulus: u64,
    key: Ghost<nat>,
}

/// The decryption boundary: a shortint client key.  It is consumed only to
/// build the initial board and to inspect a generation, never during an
/// update.
pub struct ClientKeyHandle {
    cks: tfhe::shortint::ClientKey,
    message_modulus: u64,
    carry_modulus: u64,
    key: Ghost<nat>,
}

/// One encrypted cell: an opaque ciphertext, the ghost plaintext it decrypts
/// to, and the ghost tag of its key pair.
pub struct Cell {
    ct: tfhe::shortint::Ciphertext,
    value: Ghost<nat>,
    key: Ghost<nat>,
}

impl EvalContext {
    /// The message space the context advertises.
    pub closed spec fn spec_message_modulus(self) -> u64 {
        self.message_modulus
    }

    /// The carry space the context advertises.
    pub closed spec fn spec_carry_modulus(self) -> u64 {
        self.carry_modulus
    }

    /// The ghost tag of the key pair this context evaluates under.
    pub closed spec fn key(self) -> nat {
        self.key@
    }

    /// The combined plaintext capacity: message space times carry space.
    pub open spec fn capacity(self) -> nat {
        self.spec_message_modulus() as nat * self.spec_carry_modulus() as nat
    }

    pub fn message_modulus(&self) -> (r: u64)
        ensures
            r == self.spec_message_modulus(),
    {
        self.message_modulus
    }

    pub fn carry_modulus(&self) -> (r: u64)
        ensures
            r == self.spec_carry_modulus(),
    {
        self.carry_modulus
    }
}

impl ClientKeyHandle {
    pub closed spec fn spec_message_modulus(self) -> u64 {
        self.message_modulus
    }

    pub closed spec fn spec_carry_modulus(self) -> u64 {
        self.carry_modulus
    }

    /// The ghost tag of the key pair this handle decrypts under.
    pub closed spec fn key(self) -> nat {
        self.key@
    }

    pub fn message_modulus(&self) -> (r: u64)
        ensures
            r == self.spec_message_modulus(),
    {
        self.message_modulus
    }

    pub fn carry_modulus(&self) -> (r: u64)
        ensures
            r == self.spec_carry_modulus(),
    {
        self.carry_modulus
    }
}

impl Cell {
    /// The ghost plaintext this ciphertext decrypts to.
    pub closed spec fn value(self) -> nat {
        self.value@
    }

    /// The ghost tag of the key pair this ciphertext belongs to.
    pub closed spec fn key(self) -> nat {
        self.key@
    }
}

/// Relies on shortint's `gen_keys`: it returns one matching client/server key
/// pair, both carrying the message and carry moduli of the parameter set they
/// were generated from.  The parameter set must be a valid shortint parameter
/// set, such as one of the crate's published constants.
#[verifier::external_body]
pub fn gen_session(params: tfhe::shortint::parameters::ClassicPBSParameters) -> (r: (
    ClientKeyHandle,
    EvalContext,
))
    ensures
        r.0.key() == r.1.key(),
        r.0.spec_message_modulus() == r.1.spec_message_modulus(),
        r.0.spec_carry_modulus() == r.1.spec_carry_modulus(),
{
    let (cks, sks) = tfhe::shortint::gen_keys(params);
    let message_modulus = sks.message_modulus.0;
    let carry_modulus = sks.carry_modulus.0;
    let handle = ClientKeyHandle {
        cks,
        message_modulus,
        carry_modulus,
        key: Ghost(arbitrary()),
    };
    let context = EvalContext { sks, message_modulus, carry_modulus, key: Ghost(arbitrary()) };
    (handle, context)
}

/// Relies on shortint's `ClientKey::encrypt`: the ciphertext decrypts, under
/// its own key pair, to the message reduced modulo the message space.
#[verifier::external_body]
pub fn encrypt_cell(ck: &ClientKeyHandle, m: u64) -> (r: Cell)
    requires
        ck.spec_message_modulus() >= 1,
    ensures
        r.key() == ck.key(),
        r.value() == m as nat % ck.spec_message_modulus() as nat,
{
    Cell { ct: ck.cks.encrypt(m), value: Ghost(arbitrary()), key: Ghost(arbitrary()) }
}

/// Relies on shortint's `ClientKey::decrypt_message_and_carry`: it returns
/// the full message-and-carry plaintext of a ciphertext of the same key pair.
#[verifier::external_body]
pub fn decrypt_cell(ck: &ClientKeyHandle, c: &Cell) -> (r: u64)
    requires
        c.key() == ck.key(),
    ensures
        r as nat == c.value(),
{
    ck.cks.decrypt_message_and_carry(&c.ct)
}

/// Relies on `Ciphertext`'s `Clone`, a field-by-field copy: a clone is the
/// same ciphertext, so it decrypts to the same plaintext.
#[verifier::external_body]
pub fn clone_cell(c: &Cell) -> (r: Cell)
    ensures
        r.value() == c.value(),
        r.key() == c.key(),
{
    Cell { ct: c.ct.clone(), value: c.value, key: c.key }
}

/// Relies on shortint's `ServerKey::unchecked_add`: addition of the two
/// plaintexts, exact as long as the sum stays below the plaintext capacity.
#[verifier::external_body]
pub fn hom_add(ctx: &EvalContext, a: &Cell, b: &Cell) -> (r: Cell)
    requires
        a.key() == ctx.key(),
        b.key() == ctx.key(),
        a.value() + b.value() < ctx.capacity(),
    ensures
        r.key() == ctx.key(),
        r.value() == a.value() + b.value(),
{
    Cell { ct: ctx.sks.unchecked_add(&a.ct, &b.ct), value: Ghost(arbitrary()), key: a.key }
}

/// Relies on shortint's `ServerKey::unchecked_scalar_mul`: multiplication of
/// the plaintext by a clear scalar, exact below the plaintext capacity.
#[verifier::external_body]
pub fn hom_scalar_mul(ctx: &EvalContext, a: &Cell, k: u8) -> (r: Cell)
    requires
        a.key() == ctx.key(),
        a.value() * (k as nat) < ctx.capacity(),
    ensures
        r.key() == ctx.key(),
        r.value() == a.value() * (k as nat),
{
    Cell { ct: ctx.sks.unchecked_scalar_mul(&a.ct, k), value: Ghost(arbitrary()), key: a.key }
}

/// Relies on shortint's `ServerKey::create_trivial`: a trivial encryption of
/// the value reduced modulo the message space, valid under any key pair.
#[verifier::external_body]
pub fn hom_trivial(ctx: &EvalContext, v: u64) -> (r: Cell)
    requires
        ctx.spec_message_modulus() >= 1,
    ensures
        r.key() == ctx.key(),
        r.value() == v as nat % ctx.spec_message_modulus() as nat,
{
    Cell { ct: ctx.sks.create_trivial(v), value: Ghost(arbitrary()), key: ctx.key }
}

/// The result of a lookup-table evaluation: some output that the table
/// function admits on this input.
pub open spec fn lut_applies<F: Fn(u64) -> u64>(f: F, v: nat, out: nat) -> bool {
    exists|y: u64| #[trigger] call_ensures(f, (v as u64,), y) && out == y as nat
}

/// Relies on shortint's `ServerKey::generate_lookup_table` and
/// `ServerKey::apply_lookup_table`: programmable bootstrapping evaluates the
/// table function on the plaintext, exactly, for any plaintext below the
/// capacity and any table whose outputs stay below the capacity.
#[verifier::external_body]
pub fn hom_apply<F: Fn(u64) -> u64>(ctx: &EvalContext, c: &Cell, f: F) -> (r: Cell)
    requires
        c.key() == ctx.key(),
        c.value() < ctx.capacity(),
        forall|x: u64| (x as nat) < ctx.capacity() ==> call_requires(f, (x,)),
        forall|x: u64, y: u64| call_ensures(f, (x,), y) ==> (y as nat) < ctx.capacity(),
    ensures
        r.key() == ctx.key(),
        lut_applies(f, c.value(), r.value()),
{
    let lut = ctx.sks.generate_lookup_table(f);
    Cell { ct: ctx.sks.apply_lookup_table(&c.ct, &lut), value: Ghost(arbitrary()), key: c.key }
}

} // verus!
