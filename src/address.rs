//! Deterministic account addresses of the distributor program.

use vstd::prelude::*;
use vstd::string::StringSliceAdditionalSpecFns;
use vstd::string::StrSliceExecFns;

verus! {

/// What a program derived address search yields for the seeds and program id:
/// the first viable address, or none when no bump seed gives one.
pub uninterp spec fn program_address_of(seeds: Seq<Seq<u8>>, program_id: Seq<u8>) -> Option<Seq<u8>>;

/// Relies on solana_pubkey's `Pubkey::try_find_program_address`: the search depends
/// on the seeds and program id alone; it returns `None`, never panicking, where the
/// seeds are too many or too long or no bump seed gives an address.
#[verifier::external_body]
fn try_find_program_address(s0: &Vec<u8>, s1: &Vec<u8>, s2: &Vec<u8>, program_id: &[u8; 32]) -> (r: Option<[u8; 32]>)
    ensures
        r.is_some() == program_address_of(seq![s0@, s1@, s2@], program_id@).is_some(),
        r matches Some(a) ==> program_address_of(seq![s0@, s1@, s2@], program_id@) == Some(a@),
{
    let seeds: [&[u8]; 3] = [s0.as_slice(), s1.as_slice(), s2.as_slice()];
    let program = solana_pubkey::Pubkey::new_from_array(*program_id);
    solana_pubkey::Pubkey::try_find_program_address(&seeds, &program).map(|(a, _bump)| a.to_bytes())
}

/// Bytes of a string, as a seed.
pub(crate) fn str_bytes(s: &str) -> (r: Vec<u8>)
    ensures
        r@ == s.spec_bytes(),
{
    let b = s.as_bytes();
    let mut r: Vec<u8> = Vec::new();
    let mut i: usize = 0;
    while i < b.len()
        invariant
            b@ == s.spec_bytes(),
            i <= b@.len(),
            r@ == b@.subrange(0, i as int),
        decreases b@.len() - i,
    {
        r.push(b[i]);
        i = i + 1;
        assert(r@ =~= b@.subrange(0, i as int));
    }
    assert(r@ =~= b@);
    r
}

/// The bytes of an address, as a seed.
pub fn bytes_of(a: &[u8; 32]) -> (r: Vec<u8>)
    ensures
        r@ == a@,
{
    let mut r: Vec<u8> = Vec::new();
    let mut i: usize = 0;
    while i < 32
        invariant
            i <= 32,
            a@.len() == 32,
            r@ == a@.subrange(0, i as int),
        decreases 32 - i,
    {
        r.push(a[i]);
        i = i + 1;
        assert(r@ =~= a@.subrange(0, i as int));
    }
    assert(r@ =~= a@);
    r
}

/// Seed prefix of a distributor account.
pub open spec fn distributor_prefix() -> Seq<u8> {
    "merkle_distributor".spec_bytes()
}

/// Seed prefix of a claim-status account.
pub open spec fn claim_status_prefix() -> Seq<u8> {
    "claim_status".spec_bytes()
}

/// The eight little-endian bytes of `x`.
pub open spec fn le_bytes(x: u64) -> Seq<u8> {
    Seq::new(8, |i: int| (x >> (8 * i) as u64) as u8)
}

/// The eight little-endian bytes of `x`, lowest first.
pub fn u64_le_bytes(x: u64) -> (r: Vec<u8>)
    ensures
        r@ == le_bytes(x),
{
    let mut r: Vec<u8> = Vec::new();
    let mut i: u64 = 0;
    while i < 8
        invariant
            i <= 8,
            r@ == le_bytes(x).subrange(0, i as int),
        decreases 8 - i,
    {
        r.push((x >> (8 * i)) as u8);
        i = i + 1;
        assert(r@ =~= le_bytes(x).subrange(0, i as int));
    }
    assert(r@ =~= le_bytes(x));
    r
}

/// Distinct integers have distinct little-endian encodings.
pub proof fn lemma_le_bytes_injective(x: u64, y: u64)
    requires
        le_bytes(x) == le_bytes(y),
    ensures
        x == y,
{
    assert(le_bytes(x)[0] == (x >> 0u64) as u8 && le_bytes(y)[0] == (y >> 0u64) as u8);
    assert(le_bytes(x)[1] == (x >> 8u64) as u8 && le_bytes(y)[1] == (y >> 8u64) as u8);
    assert(le_bytes(x)[2] == (x >> 16u64) as u8 && le_bytes(y)[2] == (y >> 16u64) as u8);
    assert(le_bytes(x)[3] == (x >> 24u64) as u8 && le_bytes(y)[3] == (y >> 24u64) as u8);
    assert(le_bytes(x)[4] == (x >> 32u64) as u8 && le_bytes(y)[4] == (y >> 32u64) as u8);
    assert(le_bytes(x)[5] == (x >> 40u64) as u8 && le_bytes(y)[5] == (y >> 40u64) as u8);
    assert(le_bytes(x)[6] == (x >> 48u64) as u8 && le_bytes(y)[6] == (y >> 48u64) as u8);
    assert(le_bytes(x)[7] == (x >> 56u64) as u8 && le_bytes(y)[7] == (y >> 56u64) as u8);
    assert(x == y) by (bit_vector)
        requires
            (x >> 0u64) as u8 == (y >> 0u64) as u8,
            (x >> 8u64) as u8 == (y >> 8u64) as u8,
            (x >> 16u64) as u8 == (y >> 16u64) as u8,
            (x >> 24u64) as u8 == (y >> 24u64) as u8,
            (x >> 32u64) as u8 == (y >> 32u64) as u8,
            (x >> 40u64) as u8 == (y >> 40u64) as u8,
            (x >> 48u64) as u8 == (y >> 48u64) as u8,
            (x >> 56u64) as u8 == (y >> 56u64) as u8,
    ;
}

/// Program id of the associated token account program.
pub const ASSOCIATED_TOKEN_PROGRAM_ID: [u8; 32] = [
    140, 151, 37, 143, 78, 36, 137, 241, 187, 61, 16, 41, 20, 142, 13, 131,
    11, 90, 19, 153, 218, 255, 16, 132, 4, 142, 123, 216, 219, 233, 248, 89,
];

/// Seeds of the distributor account of `mint` for `epoch`.
pub open spec fn distributor_seeds(mint: Seq<u8>, epoch: u64) -> Seq<Seq<u8>> {
    seq![distributor_prefix(), mint, le_bytes(epoch)]
}

/// Seeds of the claim-status account of `claimant` under `distributor`.
pub open spec fn claim_status_seeds(claimant: Seq<u8>, distributor: Seq<u8>) -> Seq<Seq<u8>> {
    seq![claim_status_prefix(), claimant, distributor]
}

/// Seeds of the associated token account of `owner` for `mint`.
pub open spec fn associated_token_seeds(owner: Seq<u8>, mint: Seq<u8>, token_program: Seq<u8>) -> Seq<Seq<u8>> {
    seq![owner, token_program, mint]
}

/// Relies on spl_associated_token_account_interface's
/// `get_associated_token_address_with_program_id`: `find_program_address` over the seeds
/// owner, token program, mint under `ASSOCIATED_TOKEN_PROGRAM_ID`, which panics only
/// where that search finds no address.
#[verifier::external_body]
fn get_associated_token_address(owner: &[u8; 32], mint: &[u8; 32], token_program: &[u8; 32]) -> (r: [u8; 32])
    requires
        program_address_of(associated_token_seeds(owner@, mint@, token_program@), ASSOCIATED_TOKEN_PROGRAM_ID@).is_some(),
    ensures
        program_address_of(associated_token_seeds(owner@, mint@, token_program@), ASSOCIATED_TOKEN_PROGRAM_ID@) == Some(r@),
{
    spl_associated_token_account_interface::address::get_associated_token_address_with_program_id(
        &(*owner).into(),
        &(*mint).into(),
        &(*token_program).into(),
    ).to_bytes()
}

/// Address of the distributor account that holds the rewards of `epoch` in `mint`;
/// `None` only where the derivation finds no address.
pub fn distributor_address(mint: &[u8; 32], epoch: u64, program_id: &[u8; 32]) -> (r: Option<[u8; 32]>)
    ensures
        r.is_some() == program_address_of(distributor_seeds(mint@, epoch), program_id@).is_some(),
        r matches Some(a) ==> program_address_of(distributor_seeds(mint@, epoch), program_id@) == Some(a@),
{
    let prefix = str_bytes("merkle_distributor");
    let m = bytes_of(mint);
    let e = u64_le_bytes(epoch);
    proof {
        assert(seq![prefix@, m@, e@] =~= distributor_seeds(mint@, epoch));
    }
    try_find_program_address(&prefix, &m, &e, program_id)
}

/// Address of the record that marks `claimant` as paid by `distributor`;
/// `None` only where the derivation finds no address.
pub fn claim_status_address(claimant: &[u8; 32], distributor: &[u8; 32], program_id: &[u8; 32]) -> (r: Option<[u8; 32]>)
    ensures
        r.is_some() == program_address_of(claim_status_seeds(claimant@, distributor@), program_id@).is_some(),
        r matches Some(a) ==> program_address_of(claim_status_seeds(claimant@, distributor@), program_id@) == Some(a@),
{
    let prefix = str_bytes("claim_status");
    let c = bytes_of(claimant);
    let d = bytes_of(distributor);
    proof {
        assert(seq![prefix@, c@, d@] =~= claim_status_seeds(claimant@, distributor@));
    }
    try_find_program_address(&prefix, &c, &d, program_id)
}

/// Associated token account of `owner` for `mint` under `token_program`;
/// `None` only where the derivation finds no address.
pub fn associated_token_address(owner: &[u8; 32], mint: &[u8; 32], token_program: &[u8; 32]) -> (r: Option<[u8; 32]>)
    ensures
        r.is_some() == program_address_of(associated_token_seeds(owner@, mint@, token_program@), ASSOCIATED_TOKEN_PROGRAM_ID@).is_some(),
        r matches Some(a) ==> program_address_of(associated_token_seeds(owner@, mint@, token_program@), ASSOCIATED_TOKEN_PROGRAM_ID@) == Some(a@),
{
    let o = bytes_of(owner);
    let t = bytes_of(token_program);
    let m = bytes_of(mint);
    let ata_program = ASSOCIATED_TOKEN_PROGRAM_ID;
    proof {
        assert(seq![o@, t@, m@] =~= associated_token_seeds(owner@, mint@, token_program@));
    }
    match try_find_program_address(&o, &t, &m, &ata_program) {
        None => None,
        Some(_) => Some(get_associated_token_address(owner, mint, token_program)),
    }
}

/// Distributor seeds determine the mint and the epoch: two distinct epochs of one
/// mint never ask the derivation for the same address.
pub proof fn lemma_distributor_seeds_injective(m1: Seq<u8>, e1: u64, m2: Seq<u8>, e2: u64)
    requires
        distributor_seeds(m1, e1) == distributor_seeds(m2, e2),
    ensures
        m1 == m2,
        e1 == e2,
{
    assert(distributor_seeds(m1, e1)[1] == distributor_seeds(m2, e2)[1]);
    assert(distributor_seeds(m1, e1)[2] == distributor_seeds(m2, e2)[2]);
    lemma_le_bytes_injective(e1, e2);
}

/// Claim-status seeds determine the claimant and the distributor.
pub proof fn lemma_claim_status_seeds_injective(c1: Seq<u8>, d1: Seq<u8>, c2: Seq<u8>, d2: Seq<u8>)
    requires
        claim_status_seeds(c1, d1) == claim_status_seeds(c2, d2),
    ensures
        c1 == c2,
        d1 == d2,
{
    assert(claim_status_seeds(c1, d1)[1] == claim_status_seeds(c2, d2)[1]);
    assert(claim_status_seeds(c1, d1)[2] == claim_status_seeds(c2, d2)[2]);
}

/// Derivation is deterministic: two results that `distributor_address` may give
/// for the same mint, epoch and program are the same address.
pub proof fn lemma_distributor_address_deterministic(
    mint: Seq<u8>,
    epoch: u64,
    program_id: Seq<u8>,
    r1: Option<[u8; 32]>,
    r2: Option<[u8; 32]>,
)
    requires
        r1.is_some() == program_address_of(distributor_seeds(mint, epoch), program_id).is_some(),
        r1 matches Some(a) ==> program_address_of(distributor_seeds(mint, epoch), program_id) == Some(a@),
        r2.is_some() == program_address_of(distributor_seeds(mint, epoch), program_id).is_some(),
        r2 matches Some(a) ==> program_address_of(distributor_seeds(mint, epoch), program_id) == Some(a@),
    ensures
        r1 == r2,
{
    if r1 is Some {
        assert(r1.unwrap()@ =~= r2.unwrap()@);
        assert(r1.unwrap() == r2.unwrap());
    }
}

/// Derivation is deterministic: two results that `claim_status_address` may give
/// for the same claimant, distributor and program are the same address.
pub proof fn lemma_claim_status_address_deterministic(
    claimant: Seq<u8>,
    distributor: Seq<u8>,
    program_id: Seq<u8>,
    r1: Option<[u8; 32]>,
    r2: Option<[u8; 32]>,
)
    requires
        r1.is_some() == program_address_of(claim_status_seeds(claimant, distributor), program_id).is_some(),
        r1 matches Some(a) ==> program_address_of(claim_status_seeds(claimant, distributor), program_id) == Some(a@),
        r2.is_some() == program_address_of(claim_status_seeds(claimant, distributor), program_id).is_some(),
        r2 matches Some(a) ==> program_address_of(claim_status_seeds(claimant, distributor), program_id) == Some(a@),
    ensures
        r1 == r2,
{
    if r1 is Some {
        assert(r1.unwrap()@ =~= r2.unwrap()@);
        assert(r1.unwrap() == r2.unwrap());
    }
}

} // verus!
