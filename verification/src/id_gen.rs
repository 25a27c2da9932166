//! Identifiers for instrumentation probes.
//!
//! A probe gets its identifier from its name: the name is hashed together
//! with a random salt and the hash is folded into the range of valid
//! identifiers. A hash that folds to 0 is no identifier; the salt is then
//! drawn again, up to a fixed number of times.

use sha3::Digest;
use vstd::prelude::*;
use vstd::string::StringSliceAdditionalSpecFns;

verus! {

/// The largest identifier a probe can have.
pub const MAX_ID: u32 = 0x3FFF_FFFF;

/// How often a salt is drawn before the search for an identifier is given
/// up.
pub const MAX_TRIES: u16 = 0xFFFF;

/// A range of identifiers, both ends included, that does not hold 0.
#[derive(Clone, Copy, Debug, PartialEq, Eq, Hash, Structural)]
pub struct NonZeroIdRange {
    inclusive_start: u32,
    inclusive_end: u32,
}

impl NonZeroIdRange {
    /// The lowest identifier of the range.
    pub closed spec fn start(&self) -> u32 {
        self.inclusive_start
    }

    /// The highest identifier of the range.
    pub closed spec fn end(&self) -> u32 {
        self.inclusive_end
    }

    /// The range is not empty and does not hold 0.
    pub open spec fn wf(&self) -> bool {
        1 <= self.start() <= self.end()
    }

    /// Whether the range holds `value`.
    pub open spec fn spec_contains(&self, value: u32) -> bool {
        self.start() <= value <= self.end()
    }

    /// The range from `inclusive_start` to `inclusive_end`, or `None` when
    /// that range is empty or would hold 0.
    pub fn new(inclusive_start: u32, inclusive_end: u32) -> (range: Option<Self>)
        ensures
            range is Some <==> 1 <= inclusive_start <= inclusive_end,
            range matches Some(r) ==> r.wf() && r.start() == inclusive_start && r.end()
                == inclusive_end,
    {
        if inclusive_start == 0 || inclusive_start > inclusive_end {
            None
        } else {
            Some(NonZeroIdRange { inclusive_start, inclusive_end })
        }
    }

    /// Whether the range holds `value`.
    pub fn contains(&self, value: u32) -> (b: bool)
        ensures
            b == self.spec_contains(value),
    {
        value >= self.inclusive_start && value <= self.inclusive_end
    }
}

/// What `sha3::Sha3_256::digest` returns for `data`: the SHA3-256 digest of
/// these bytes. Nothing is known of it here but its length.
pub uninterp spec fn sha3_256_digest(data: Seq<u8>) -> Seq<u8>;

/// Computes the SHA3-256 digest of `data` with `sha3::Sha3_256::digest`.
/// The digest is what that function returns for these bytes, and it is 32
/// bytes long; neither is proved here.
#[verifier::external_body]
fn sha3_256(data: &Vec<u8>) -> (digest: Vec<u8>)
    ensures
        digest@ == sha3_256_digest(data@),
        digest@.len() == 32,
{
    sha3::Sha3_256::digest(data.as_slice()).to_vec()
}

/// Draws a random salt with `uuid::Uuid::new_v4` and hands out its 16
/// bytes. Nothing is known of their values. The call gives up the program
/// when the system's source of randomness fails, which nothing that could
/// be asked of the caller rules out.
#[verifier::external_body]
fn fresh_salt() -> (salt: Vec<u8>)
    ensures
        salt@.len() == 16,
{
    uuid::Uuid::new_v4().as_bytes().to_vec()
}

/// The number that the first two bytes of `digest` spell, highest byte
/// first.
pub open spec fn leading_u16(digest: Seq<u8>) -> int {
    digest[0] * 0x100 + digest[1]
}

/// The number that the first four bytes of `digest` spell, highest byte
/// first.
pub open spec fn leading_u32(digest: Seq<u8>) -> int {
    digest[0] * 0x100_0000 + digest[1] * 0x1_0000 + digest[2] * 0x100 + digest[3]
}

/// A digest folded into `0..modulus`: the leading 16 bits times
/// `0xFFFF_FFFF`, plus the leading 32 bits, both in 32-bit arithmetic that
/// wraps around, and of that the remainder modulo `modulus`.
pub open spec fn folded(digest: Seq<u8>, modulus: int) -> int {
    ((leading_u16(digest) * 0xFFFF_FFFF + leading_u32(digest)) % 0x1_0000_0000) % modulus
}

/// Folds a digest into `0..modulus`.
pub fn fold_digest(digest: &Vec<u8>, modulus: u32) -> (id: u32)
    requires
        digest@.len() >= 4,
        modulus >= 1,
    ensures
        id == folded(digest@, modulus as int),
        id < modulus,
{
    let b0 = digest[0] as u64;
    let b1 = digest[1] as u64;
    let b2 = digest[2] as u64;
    let b3 = digest[3] as u64;
    let be16: u64 = b0 * 0x100 + b1;
    let be32: u64 = b0 * 0x100_0000 + b1 * 0x1_0000 + b2 * 0x100 + b3;
    let wrapped: u64 = (be16 * 0xFFFF_FFFF + be32) % 0x1_0000_0000;
    (wrapped as u32) % modulus
}

/// What `salt` gives to `token`: the digest of the salt followed by the
/// token, folded into the range below `end`.
pub open spec fn salted_hash(salt: Seq<u8>, token: Seq<u8>, end: u32) -> int {
    folded(sha3_256_digest(salt + token), end as int)
}

/// Whether `salt` gives `token` an identifier between `start` and `end`:
/// what it gives is not 0 and lies in that range.
pub open spec fn salt_hits(salt: Seq<u8>, token: Seq<u8>, start: u32, end: u32) -> bool {
    salted_hash(salt, token, end) != 0 && start <= salted_hash(salt, token, end) <= end
}

/// Whether `id` is what the search for an identifier of `token` between
/// `start` and `end` ends with when the salts `tried` are used one after the
/// other: every salt but the last gives no identifier; the search ends with
/// what the last salt gives, or, when `MAX_TRIES` salts have been used and
/// the last gives no identifier either, with nothing.
pub open spec fn search_ends_with(
    tried: Seq<Seq<u8>>,
    token: Seq<u8>,
    start: u32,
    end: u32,
    id: Option<u32>,
) -> bool {
    &&& 1 <= tried.len() <= MAX_TRIES
    &&& forall|k: int|
        0 <= k < tried.len() - 1 ==> !salt_hits(#[trigger] tried[k], token, start, end)
    &&& match id {
        Some(found) => salt_hits(tried.last(), token, start, end) && found == salted_hash(
            tried.last(),
            token,
            end,
        ),
        None => tried.len() == MAX_TRIES && !salt_hits(tried.last(), token, start, end),
    }
}

/// Whether the salts of `tried` from position `from` on are 16 bytes long,
/// as drawn salts are.
pub open spec fn drawn_from(tried: Seq<Seq<u8>>, from: int) -> bool {
    forall|k: int| from <= k < tried.len() ==> (#[trigger] tried[k]).len() == 16
}

/// Whether `id` is an identifier that a search over drawn salts ends with
/// for the probe whose name has the bytes `name`: the first of the drawn
/// salts that gives the name an identifier between 1 and `MAX_ID` gives
/// `id`.
pub open spec fn drawn_id(name: Seq<u8>, id: u32) -> bool {
    exists|tried: Seq<Seq<u8>>|
        #[trigger] search_ends_with(tried, name, 1, MAX_ID, Some(id)) && drawn_from(tried, 0)
}

/// A generator of probe identifiers.
#[derive(Debug)]
pub struct IdGen {
    id_range: NonZeroIdRange,
    salt: Vec<u8>,
}

impl IdGen {
    /// The range the identifiers are taken from.
    pub closed spec fn range(&self) -> NonZeroIdRange {
        self.id_range
    }

    /// The salt that is hashed together with a name.
    pub closed spec fn salt(&self) -> Seq<u8> {
        self.salt@
    }

    /// The identifier that the current salt gives to `token`, or 0 when it
    /// gives none.
    pub open spec fn spec_token_hash(&self, token: Seq<u8>) -> int {
        salted_hash(self.salt(), token, self.range().end())
    }

    /// Whether the salt in use gives `token` an identifier of the range.
    pub open spec fn hits(&self, token: Seq<u8>) -> bool {
        salt_hits(self.salt(), token, self.range().start(), self.range().end())
    }

    /// A generator for `id_range` with a random salt.
    pub fn new(id_range: NonZeroIdRange) -> (gen: Self)
        requires
            id_range.wf(),
        ensures
            gen.range() == id_range,
            gen.salt().len() == 16,
    {
        IdGen { id_range, salt: fresh_salt() }
    }

    /// A generator for `id_range` with the given salt.
    pub fn with_salt(id_range: NonZeroIdRange, salt: Vec<u8>) -> (gen: Self)
        requires
            id_range.wf(),
        ensures
            gen.range() == id_range,
            gen.salt() == salt@,
    {
        IdGen { id_range, salt }
    }

    /// Draws the salt again.
    pub fn regenerate_uuid(&mut self)
        ensures
            final(self).range() == old(self).range(),
            final(self).salt().len() == 16,
    {
        self.salt = fresh_salt();
    }

    /// The identifier that the current salt gives to `token`: the digest of
    /// the salt followed by the bytes of the token, folded into the range
    /// below the range's end.
    pub fn token_hash(&self, token: &str) -> (id: u32)
        requires
            self.range().wf(),
        ensures
            id == self.spec_token_hash(token.spec_bytes()),
            id < self.range().end(),
    {
        let bytes = token.as_bytes();
        let mut data: Vec<u8> = Vec::new();
        let mut k: usize = 0;
        while k < self.salt.len()
            invariant
                k <= self.salt@.len(),
                data@ == self.salt@.take(k as int),
            decreases self.salt@.len() - k,
        {
            data.push(self.salt[k]);
            assert(self.salt@.take(k + 1) =~= self.salt@.take(k as int).push(self.salt@[k as int]));
            k += 1;
        }
        assert(self.salt@.take(k as int) =~= self.salt@);
        let mut j: usize = 0;
        while j < bytes.len()
            invariant
                j <= bytes@.len(),
                data@ == self.salt@ + bytes@.take(j as int),
            decreases bytes@.len() - j,
        {
            data.push(bytes[j]);
            assert(self.salt@ + bytes@.take(j + 1) =~= (self.salt@ + bytes@.take(j as int)).push(
                bytes@[j as int],
            ));
            j += 1;
        }
        assert(bytes@.take(j as int) =~= bytes@);
        let digest = sha3_256(&data);
        fold_digest(&digest, self.id_range.inclusive_end)
    }

    /// Looks for an identifier for `token`: hashes it with the current
    /// salt, and draws the salt again as long as the hash is no identifier
    /// of the range. Gives up with `None` after `MAX_TRIES` salts.
    ///
    /// When the salt in use gives the token an identifier of the range,
    /// that identifier is returned and the salt stays. Otherwise which
    /// salts are drawn is a matter of chance, so whether an identifier is
    /// found is not known beforehand. What is known is how the search went:
    /// it used the salt it started with and then drawn ones, one after the
    /// other; each but the last gave no identifier; and it ended with the
    /// identifier that the last one gave, which is then the salt in use, or
    /// with `None` when the last of `MAX_TRIES` salts gave none either.
    ///
    /// What a salt gives lies below the end of the range. So an identifier
    /// that is found lies below the end too, and in a range of one
    /// identifier none is ever found: the search then ends with `None`.
    pub fn hashed_id(&mut self, token: &str) -> (id: Option<u32>)
        requires
            old(self).range().wf(),
        ensures
            final(self).range() == old(self).range(),
            id matches Some(found) ==> final(self).range().spec_contains(found) && found != 0
                && found < final(self).range().end() && found == final(self).spec_token_hash(
                token.spec_bytes(),
            ),
            old(self).range().start() == old(self).range().end() ==> id is None,
            old(self).hits(token.spec_bytes()) ==> id == Some(
                old(self).spec_token_hash(token.spec_bytes()) as u32,
            ) && final(self).salt() == old(self).salt(),
            exists|tried: Seq<Seq<u8>>|
                #[trigger] search_ends_with(
                    tried,
                    token.spec_bytes(),
                    old(self).range().start(),
                    old(self).range().end(),
                    id,
                ) && tried[0] == old(self).salt() && drawn_from(tried, 1) && (id is Some
                    ==> final(self).salt() == tried.last()),
    {
        let mut max_tries: u16 = MAX_TRIES;
        let ghost mut tried: Seq<Seq<u8>> = seq![self.salt()];
        loop
            invariant
                self.range() == old(self).range(),
                self.range().wf(),
                max_tries >= 1,
                tried.len() == MAX_TRIES - max_tries + 1,
                tried[0] == old(self).salt(),
                tried.last() == self.salt(),
                drawn_from(tried, 1),
                forall|k: int|
                    0 <= k < tried.len() - 1 ==> !salt_hits(
                        #[trigger] tried[k],
                        token.spec_bytes(),
                        self.range().start(),
                        self.range().end(),
                    ),
            decreases max_tries,
        {
            let hash = self.token_hash(token);
            if accepts(&self.id_range, hash) {
                proof {
                    assert(search_ends_with(
                        tried,
                        token.spec_bytes(),
                        self.range().start(),
                        self.range().end(),
                        Some(hash),
                    ));
                }
                return Some(hash);
            }
            self.regenerate_uuid();
            max_tries = max_tries - 1;
            if max_tries == 0 {
                proof {
                    assert(search_ends_with(
                        tried,
                        token.spec_bytes(),
                        self.range().start(),
                        self.range().end(),
                        None,
                    ));
                }
                return None;
            }
            proof {
                let longer = tried.push(self.salt());
                assert forall|k: int| 0 <= k < longer.len() - 1 implies !salt_hits(
                    #[trigger] longer[k],
                    token.spec_bytes(),
                    self.range().start(),
                    self.range().end(),
                ) by {
                    assert(longer[k] == tried[k]);
                }
                assert forall|k: int| 1 <= k < longer.len() implies (#[trigger] longer[k]).len()
                    == 16 by {
                    if k < tried.len() {
                        assert(longer[k] == tried[k]);
                    }
                }
                tried = longer;
            }
        }
    }
}

/// Whether `hash` is an identifier of `range`: it is not 0 and the range
/// holds it.
pub fn accepts(range: &NonZeroIdRange, hash: u32) -> (b: bool)
    ensures
        b == (hash != 0 && range.spec_contains(hash)),
{
    hash != 0 && range.contains(hash)
}

/// Generates an identifier for the probe named `probe_name`, between 1 and
/// `MAX_ID`.
///
/// Salts are drawn one after the other, and the name is hashed with each,
/// until one gives an identifier between 1 and `MAX_ID`, which is returned.
/// `None` comes back only when `MAX_TRIES` salts have been drawn and none
/// gave an identifier. Which salts are drawn is a matter of chance. What a
/// salt gives lies below `MAX_ID`, so `MAX_ID` itself is never returned.
pub fn id_gen(probe_name: &str) -> (id: Option<u32>)
    ensures
        id matches Some(found) ==> 1 <= found < MAX_ID && drawn_id(
            probe_name.spec_bytes(),
            found,
        ),
        exists|tried: Seq<Seq<u8>>|
            #[trigger] search_ends_with(tried, probe_name.spec_bytes(), 1, MAX_ID, id)
                && drawn_from(tried, 0),
{
    match NonZeroIdRange::new(1, MAX_ID) {
        Some(range) => {
            let mut gen = IdGen::new(range);
            let ghost first = gen.salt();
            let id = gen.hashed_id(probe_name);
            proof {
                let tried = choose|tried: Seq<Seq<u8>>|
                    #[trigger] search_ends_with(tried, probe_name.spec_bytes(), 1, MAX_ID, id)
                        && tried[0] == first && drawn_from(tried, 1);
                assert(drawn_from(tried, 0));
            }
            id
        },
        None => None,
    }
}

} // verus!
