//! Authorization tokens and their repository.
//!
//! A token's opaque plaintext is handed out once at creation; the catalog
//! stores only its SHA-512 hash. A secondary lookup finds a token by that
//! hash.

use vstd::prelude::*;

use crate::errors::CatalogError;
use crate::log::{Permission, ResourceIdentifier};
use crate::repository::Repository;
use crate::textutil::byte_vecs_eq;
use crate::types::TokenId;

verus! {

/// Everything the catalog knows of one token.
pub struct TokenInfo {
    pub id: TokenId,
    pub name: String,
    /// SHA-512 hash of the token's plaintext.
    pub hash: Vec<u8>,
    /// Milliseconds since the epoch.
    pub created_at: i64,
    /// Expiry in milliseconds since the epoch, where one is set.
    pub expiry: Option<i64>,
    /// The token that performed the last update, where one did.
    pub updated_by: Option<TokenId>,
    /// Milliseconds since the epoch of the last update, where one happened.
    pub updated_at: Option<i64>,
    pub permissions: Vec<Permission>,
}

impl TokenInfo {
    pub fn new(id: TokenId, name: String, hash: Vec<u8>, created_at: i64, expiry: Option<i64>)
        -> (r: Self)
        ensures
            r.id == id,
            r.name == name,
            r.hash == hash,
            r.created_at == created_at,
            r.expiry == expiry,
            r.updated_by is None,
            r.updated_at is None,
            r.permissions@.len() == 0,
    {
        TokenInfo {
            id,
            name,
            hash,
            created_at,
            expiry,
            updated_by: None,
            updated_at: None,
            permissions: Vec::new(),
        }
    }

    pub fn set_permissions(&mut self, permissions: Vec<Permission>)
        ensures
            final(self).permissions == permissions,
            final(self).id == old(self).id,
            final(self).name == old(self).name,
            final(self).hash == old(self).hash,
            final(self).created_at == old(self).created_at,
            final(self).expiry == old(self).expiry,
            final(self).updated_by == old(self).updated_by,
            final(self).updated_at == old(self).updated_at,
    {
        self.permissions = permissions;
    }
}

/// A copy of a permission list.
pub fn dup_permissions(v: &Vec<Permission>) -> (r: Vec<Permission>)
    ensures
        crate::eqv::permissions_eqv(r@, v@),
{
    let mut r: Vec<Permission> = Vec::new();
    let mut i: usize = 0;
    while i < v.len()
        invariant
            i <= v@.len(),
            r@.len() == i,
            crate::eqv::permissions_eqv(r@, v@.subrange(0, i as int)),
        decreases v@.len() - i,
    {
        let p = &v[i];
        let identifier = match &p.resource_identifier {
            ResourceIdentifier::Wildcard => ResourceIdentifier::Wildcard,
            ResourceIdentifier::Database(ids) => ResourceIdentifier::Database(
                copy_db_ids(ids)),
            ResourceIdentifier::Token(ids) => ResourceIdentifier::Token(copy_token_ids(ids)),
        };
        r.push(Permission {
            resource_type: p.resource_type,
            resource_identifier: identifier,
            actions: p.actions,
        });
        i += 1;
        proof {
            assert(v@.subrange(0, i as int).drop_last() =~= v@.subrange(0, (i - 1) as int));
            assert(crate::eqv::permissions_eqv(r@, v@.subrange(0, i as int)));
        }
    }
    proof {
        assert(v@.subrange(0, v@.len() as int) =~= v@);
    }
    r
}

fn copy_db_ids(v: &Vec<crate::types::DbId>) -> (r: Vec<crate::types::DbId>)
    ensures
        r@ == v@,
{
    let mut r: Vec<crate::types::DbId> = Vec::new();
    let mut i: usize = 0;
    while i < v.len()
        invariant
            i <= v@.len(),
            r@ =~= v@.subrange(0, i as int),
        decreases v@.len() - i,
    {
        r.push(v[i]);
        i += 1;
        proof {
            assert(r@ =~= v@.subrange(0, i as int));
        }
    }
    proof {
        assert(r@ =~= v@);
    }
    r
}

fn copy_token_ids(v: &Vec<TokenId>) -> (r: Vec<TokenId>)
    ensures
        r@ == v@,
{
    let mut r: Vec<TokenId> = Vec::new();
    let mut i: usize = 0;
    while i < v.len()
        invariant
            i <= v@.len(),
            r@ =~= v@.subrange(0, i as int),
        decreases v@.len() - i,
    {
        r.push(v[i]);
        i += 1;
        proof {
            assert(r@ =~= v@.subrange(0, i as int));
        }
    }
    proof {
        assert(r@ =~= v@);
    }
    r
}

/// Copies a byte vector.
pub fn copy_bytes(v: &Vec<u8>) -> (r: Vec<u8>)
    ensures
        r@ == v@,
{
    let mut r: Vec<u8> = Vec::new();
    let mut i: usize = 0;
    while i < v.len()
        invariant
            i <= v@.len(),
            r@ =~= v@.subrange(0, i as int),
        decreases v@.len() - i,
    {
        r.push(v[i]);
        i += 1;
        proof {
            assert(r@ =~= v@.subrange(0, i as int));
        }
    }
    proof {
        assert(r@ =~= v@);
    }
    r
}

/// The SHA-512 digest of a string's UTF-8 bytes: a function of the
/// characters alone; its 64 bytes are not modelled here.
pub uninterp spec fn sha512_of(s: Seq<char>) -> Seq<u8>;

/// Relies on sha2's `Sha512::digest`: 64 bytes, depending on the input
/// alone.
#[verifier::external_body]
pub fn sha512_string(s: &str) -> (r: Vec<u8>)
    ensures
        r@ == sha512_of(s@),
        r@.len() == 64,
{
    <sha2::Sha512 as sha2::Digest>::digest(s.as_bytes()).to_vec()
}

/// The URL-safe base64 alphabet without padding.
pub open spec fn is_b64url_char(c: char) -> bool {
    ||| 'A' <= c && c <= 'Z'
    ||| 'a' <= c && c <= 'z'
    ||| '0' <= c && c <= '9'
    ||| c == '-'
    ||| c == '_'
}

/// The URL-safe unpadded base64 rendering of a byte string: a function of
/// the bytes alone; which characters stand where is not modelled here.
pub uninterp spec fn b64url_nopad_of(bytes: Seq<u8>) -> Seq<char>;

/// Relies on base64's `URL_SAFE_NO_PAD` engine: four characters for every
/// three bytes, rounded up, all from the URL-safe alphabet, depending on the
/// input alone.
#[verifier::external_body]
pub fn b64url_nopad(bytes: &Vec<u8>) -> (r: String)
    ensures
        r@ == b64url_nopad_of(bytes@),
        r@.len() == (4 * bytes@.len() + 2) / 3,
        forall|i: int| 0 <= i < r@.len() ==> is_b64url_char(#[trigger] r@[i]),
{
    base64::Engine::encode(&base64::engine::general_purpose::URL_SAFE_NO_PAD, bytes)
}

/// Relies on rand's `OsRng::fill_bytes`: `n` bytes from the operating
/// system's random source; nothing holds of their values.
#[verifier::external_body]
pub fn random_bytes(n: usize) -> (r: Vec<u8>)
    ensures
        r@.len() == n,
{
    let mut key = vec![0u8; n];
    rand::RngCore::fill_bytes(&mut rand::rngs::OsRng, &mut key);
    key
}

/// The shape of a token plaintext: `apiv3_` followed by the URL-safe base64
/// rendering, without padding, of 64 random bytes.
pub open spec fn token_plaintext_shape(s: Seq<char>) -> bool {
    &&& s.len() == 92
    &&& s.subrange(0, 6) == seq!['a', 'p', 'i', 'v', '3', '_']
    &&& forall|i: int| 6 <= i < s.len() ==> is_b64url_char(#[trigger] s[i])
}

/// Creates a fresh token plaintext and its SHA-512 hash. The plaintext is
/// handed to the caller once and never persisted.
pub fn create_token_and_hash() -> (r: (String, Vec<u8>))
    ensures
        token_plaintext_shape(r.0@),
        r.1@ == sha512_of(r.0@),
        r.1@.len() == 64,
{
    let mut token: String = "apiv3_".to_owned();
    let key = random_bytes(64);
    let encoded = b64url_nopad(&key);
    token.append(encoded.as_str());
    proof {
        reveal_strlit("apiv3_");
        assert(token@.subrange(0, 6) =~= seq!['a', 'p', 'i', 'v', '3', '_']);
    }
    let hash = sha512_string(token.as_str());
    (token, hash)
}

/// Stores tokens in the catalog, with lookup by name, id, and hash.
pub struct TokenRepository {
    pub repo: Repository<TokenInfo>,
}

impl TokenRepository {
    /// Every entry associates the identifier and name the token carries.
    pub open spec fn entries_ok(self) -> bool {
        forall|i: int|
            0 <= i < self.repo.entries@.len() ==> {
                let e = #[trigger] self.repo.entries@[i];
                e.id == e.res.id.0 && e.name@ == e.res.name@
            }
    }

    pub open spec fn wf(self) -> bool {
        self.repo.wf() && self.entries_ok()
    }

    pub fn new() -> (r: Self)
        ensures
            r.wf(),
            r.repo.entries@.len() == 0,
            r.repo.next_id == 0,
    {
        TokenRepository { repo: Repository::new() }
    }

    pub fn repo(&self) -> (r: &Repository<TokenInfo>)
        ensures
            r == &self.repo,
    {
        &self.repo
    }

    pub fn get_and_increment_next_id(&mut self) -> (r: u64)
        requires
            old(self).wf(),
            old(self).repo.next_id < u64::MAX,
        ensures
            final(self).wf(),
            r == old(self).repo.next_id,
            final(self).repo.next_id == old(self).repo.next_id + 1,
            final(self).repo.entries@ == old(self).repo.entries@,
    {
        self.repo.get_and_increment_next_id()
    }

    /// The token whose hash is `hash`, where one is stored: the first such
    /// entry.
    pub fn hash_to_info(&self, hash: &Vec<u8>) -> (r: Option<&TokenInfo>)
        requires
            self.wf(),
        ensures
            match r {
                Some(info) => exists|i: int|
                    0 <= i < self.repo.entries@.len()
                        && (#[trigger] self.repo.entries@[i]).res.hash@ == hash@
                        && info == &self.repo.entries@[i].res,
                None => forall|i: int|
                    0 <= i < self.repo.entries@.len()
                        ==> (#[trigger] self.repo.entries@[i]).res.hash@ != hash@,
            },
    {
        let mut i: usize = 0;
        while i < self.repo.entries.len()
            invariant
                i <= self.repo.entries@.len(),
                forall|k: int|
                    0 <= k < i ==> (#[trigger] self.repo.entries@[k]).res.hash@ != hash@,
            decreases self.repo.entries@.len() - i,
        {
            if byte_vecs_eq(&self.repo.entries[i].res.hash, hash) {
                return Some(&self.repo.entries[i].res);
            }
            i += 1;
        }
        None
    }

    /// Adds a token. Fails with `AlreadyExists`, changing nothing, when the
    /// id or name is taken.
    pub fn add_token(&mut self, token_id: TokenId, token_info: TokenInfo)
        -> (r: Result<(), CatalogError>)
        requires
            old(self).wf(),
            token_id.0 < u64::MAX,
            token_info.id == token_id,
        ensures
            final(self).wf(),
            match r {
                Ok(()) => {
                    &&& !old(self).repo.spec_contains_id(token_id.0)
                    &&& !old(self).repo.spec_contains_name(token_info.name@)
                    &&& final(self).repo.entries@.len() == old(self).repo.entries@.len() + 1
                    &&& final(self).repo.entries@.last().res == token_info
                    &&& final(self).repo.entries@.drop_last() == old(self).repo.entries@
                },
                Err(e) => {
                    &&& e is AlreadyExists
                    &&& (old(self).repo.spec_contains_id(token_id.0)
                        || old(self).repo.spec_contains_name(token_info.name@))
                    &&& *final(self) == *old(self)
                },
            },
    {
        let name = token_info.name.clone();
        let ghost info_snap = token_info;
        match self.repo.insert(token_id.0, name, token_info) {
            Ok(()) => {
                proof {
                    let n = self.repo.entries@.len() - 1;
                    assert(forall|i: int|
                        0 <= i < n ==> #[trigger] self.repo.entries@[i]
                            == self.repo.entries@.drop_last()[i]);
                    assert(self.repo.entries@[n].res == info_snap);
                    assert forall|i: int| 0 <= i < self.repo.entries@.len() implies {
                        let e = #[trigger] self.repo.entries@[i];
                        e.id == e.res.id.0 && e.name@ == e.res.name@
                    } by {
                        if i < n {
                            let e0 = old(self).repo.entries@[i];
                            assert(e0.id == e0.res.id.0 && e0.name@ == e0.res.name@);
                        }
                    }
                }
                Ok(())
            },
            Err(e) => Err(e),
        }
    }

    /// Replaces the hash of the token stored under `token_id` and records
    /// the update time; everything else of the token stays. Fails with
    /// `MissingAdminTokenToUpdate` when the token is absent.
    pub fn update_admin_token_hash(&mut self, token_id: TokenId, hash: Vec<u8>, updated_at: i64)
        -> (r: Result<(), CatalogError>)
        requires
            old(self).wf(),
        ensures
            final(self).wf(),
            match r {
                Ok(()) => {
                    &&& old(self).repo.spec_contains_id(token_id.0)
                    &&& final(self).repo.entries@.len() == old(self).repo.entries@.len()
                    &&& {
                        let k = old(self).repo.idx_of_id(token_id.0);
                        let t_old = old(self).repo.entries@[k].res;
                        let t_new = final(self).repo.entries@[k].res;
                        &&& t_new.hash@ == hash@
                        &&& t_new.updated_at == Some(updated_at)
                        &&& t_new.updated_by == Some(token_id)
                        &&& t_new.id == t_old.id
                        &&& t_new.name@ == t_old.name@
                        &&& t_new.created_at == t_old.created_at
                        &&& t_new.expiry == t_old.expiry
                        &&& crate::eqv::permissions_eqv(t_new.permissions@,
                            t_old.permissions@)
                        &&& forall|i: int|
                            0 <= i < old(self).repo.entries@.len() && i != k
                                ==> final(self).repo.entries@[i] == old(self).repo.entries@[i]
                    }
                },
                Err(e) => {
                    &&& e is MissingAdminTokenToUpdate
                    &&& !old(self).repo.spec_contains_id(token_id.0)
                    &&& *final(self) == *old(self)
                },
            },
    {
        let k = match self.repo.find_id(token_id.0) {
            Some(k) => k,
            None => {
                return Err(CatalogError::MissingAdminTokenToUpdate);
            },
        };
        let old_info = &self.repo.entries[k].res;
        let new_info = TokenInfo {
            id: old_info.id,
            name: old_info.name.clone(),
            hash,
            created_at: old_info.created_at,
            expiry: old_info.expiry,
            updated_by: Some(token_id),
            updated_at: Some(updated_at),
            permissions: dup_permissions(&old_info.permissions),
        };
        self.repo.replace_res_at(k, new_info);
        Ok(())
    }

    /// Deletes the token of that name. Fails with `NotFound` when it is
    /// absent.
    pub fn delete_token(&mut self, token_name: &str) -> (r: Result<(), CatalogError>)
        requires
            old(self).wf(),
        ensures
            final(self).wf(),
            match r {
                Ok(()) => {
                    &&& old(self).repo.spec_contains_name(token_name@)
                    &&& final(self).repo.entries@ == old(self).repo.entries@.remove(
                        old(self).repo.idx_of_name(token_name@))
                },
                Err(e) => {
                    &&& e is NotFound
                    &&& !old(self).repo.spec_contains_name(token_name@)
                    &&& *final(self) == *old(self)
                },
            },
    {
        let id = match self.repo.name_to_id(token_name) {
            Some(id) => id,
            None => {
                return Err(CatalogError::NotFound);
            },
        };
        proof {
            let ki = self.repo.idx_of_name(token_name@);
            assert(self.repo.entries@[ki].id == id);
            assert(self.repo.spec_contains_id(id));
            let kj = self.repo.idx_of_id(id);
            assert(self.repo.entries@[kj].id == id);
            assert(kj == ki);
        }
        self.repo.remove(id);
        Ok(())
    }
}

} // verus!
