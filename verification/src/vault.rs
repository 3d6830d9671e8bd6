//! The vault operations: `list`, `clone`, `check`, `set` and `remove`, each
//! composing the location resolver, the cipher engine and the secret store
//! into one user-facing action. Every operation is a short linear pipeline
//! that aborts at its first failure; writes happen only at the final step.
//!
//! Reading the caller's working directory, the secret files on disk and the
//! password prompt are the caller's business: the operations take the
//! resolved identity, the file contents and the entered password as plain
//! values, and hand plain values back.

use vstd::prelude::*;
use crate::bytes::copy_bytes;
use crate::cipher::{
    aead_max_plain,
    derived_key,
    decrypt_text,
    encrypt_text,
    validate_spec,
    CipherEngine,
    CipherError,
};
use crate::location::{
    normalized,
    resolve,
    resolve_model,
    LocationIdentity,
    SLASH,
};
use crate::store::{project_records, SecretRecord, SecretStore};

verus! {

/// Why a vault operation aborted. `StoreUnavailable` and `FilesystemError`
/// are reserved for the caller's transport and file I/O around the store;
/// the in-memory table itself never fails.
#[derive(PartialEq, Eq, Structural, Clone, Copy, Debug)]
pub enum VaultError {
    InvalidLocation,
    AuthenticationFailure,
    StoreUnavailable,
    FilesystemError,
    UsageError,
}

/// The drift check's three-way verdict for one stored path.
#[derive(PartialEq, Eq, Structural, Clone, Copy, Debug)]
pub enum CheckStatus {
    Identical,
    NonIdentical,
    NonExistent,
}

/// What `remove` reports: a record was deleted, or no record held the key.
#[derive(PartialEq, Eq, Structural, Clone, Copy, Debug)]
pub enum RemoveOutcome {
    Removed,
    NotFound,
}

/// One entry of a clone plan: a project-relative path, with the decrypted
/// content or the per-file decryption failure.
pub struct CloneItem {
    pub path: Vec<u8>,
    pub data: Result<Vec<u8>, CipherError>,
}

/// The byte strings an optional folder holds.
pub open spec fn opt_model(folder: Option<Vec<u8>>) -> Option<Seq<u8>> {
    match folder {
        Some(f) => Some(f@),
        None => None,
    }
}

/// The project-relative path of a secret: the resolved folder joined, with
/// a slash, to the caller-given relative path; a folder of `None` joins as
/// the identity element.
pub open spec fn joined_path(folder: Option<Seq<u8>>, rel: Seq<u8>) -> Seq<u8> {
    match folder {
        None => rel,
        Some(f) => f + seq![SLASH] + rel,
    }
}

/// A decryption result agrees with what `decrypt_text` says of the stored
/// text.
pub open spec fn decrypt_outcome(
    nonce: Seq<u8>,
    key: Seq<u8>,
    stored: Seq<u8>,
    data: Result<Vec<u8>, CipherError>,
) -> bool {
    match data {
        Ok(plain) => decrypt_text(nonce, key, stored) == Ok::<Seq<u8>, CipherError>(plain@),
        Err(e) => decrypt_text(nonce, key, stored) == Err::<Seq<u8>, CipherError>(e),
    }
}

/// The drift verdict for one path: `NonExistent` when no file is on disk,
/// `Identical` when the file matches the stored plaintext verbatim, else
/// `NonIdentical`.
pub open spec fn classify(plain: Seq<u8>, disk: Option<Seq<u8>>) -> CheckStatus {
    match disk {
        None => CheckStatus::NonExistent,
        Some(d) => if d == plain {
            CheckStatus::Identical
        } else {
            CheckStatus::NonIdentical
        },
    }
}

/// Derives the location identity from the working directory, or fails with
/// `InvalidLocation` when the path does not match the project convention.
pub fn resolve_location(cwd: &Vec<u8>) -> (r: Result<LocationIdentity, VaultError>)
    ensures
        r matches Ok(loc) ==> resolve_model(normalized(cwd@)) == Some(loc@),
        r matches Err(e) ==> e == VaultError::InvalidLocation && resolve_model(normalized(cwd@))
            is None,
{
    match resolve(cwd) {
        Some(loc) => Ok(loc),
        None => Err(VaultError::InvalidLocation),
    }
}

/// Joins the resolved folder (if any) with a caller-given relative path.
pub fn join_path(folder: &Option<Vec<u8>>, rel: &[u8]) -> (r: Vec<u8>)
    ensures
        r@ == joined_path(opt_model(*folder), rel@),
{
    match folder {
        None => copy_bytes(rel),
        Some(f) => {
            let mut r = copy_bytes(f.as_slice());
            r.push(SLASH);
            let n = rel.len();
            let mut i: usize = 0;
            while i < n
                invariant
                    n == rel@.len(),
                    i <= n,
                    r@ == f@ + seq![SLASH] + rel@.subrange(0, i as int),
                decreases n - i,
            {
                r.push(rel[i]);
                assert(r@ =~= f@ + seq![SLASH] + rel@.subrange(0, i + 1 as int));
                i = i + 1;
            }
            assert(r@ =~= f@ + seq![SLASH] + rel@);
            r
        },
    }
}

/// Lists, for every record of the project, its path and its stored content
/// length — never the content itself. A project with zero records yields
/// the empty listing, which is not an error.
pub fn list_op(store: &SecretStore, project: &[u8]) -> (r: Vec<(Vec<u8>, usize)>)
    requires
        store.wf(),
    ensures
        r@.len() == project_records(store.models(), project@).len(),
        forall|i: int|
            0 <= i < r@.len() ==> (#[trigger] r@[i]).0@ == project_records(
                store.models(),
                project@,
            )[i].path && r@[i].1 == project_records(store.models(), project@)[i].content.len(),
{
    let ghost pr = project_records(store.models(), project@);
    let recs = store.get_all(project);
    let n = recs.len();
    let mut r: Vec<(Vec<u8>, usize)> = Vec::new();
    let mut i: usize = 0;
    while i < n
        invariant
            n == recs@.len(),
            recs@.len() == pr.len(),
            forall|j: int| 0 <= j < n ==> (#[trigger] recs@[j])@ == pr[j],
            i <= n,
            r@.len() == i,
            forall|j: int|
                0 <= j < i ==> (#[trigger] r@[j]).0@ == pr[j].path && r@[j].1 == pr[j].content.len(),
        decreases n - i,
    {
        let rec = &recs[i];
        let path = copy_bytes(rec.path.as_slice());
        let size = rec.content.len();
        r.push((path, size));
        i = i + 1;
    }
    r
}

/// Decrypts every record of the project under the entered password, after
/// validating it, and returns the paths with their plaintexts; writing the
/// files out is the caller's business, and one file's failure must not
/// abort the others. Fails with `AuthenticationFailure`, before touching
/// any record, when the password does not validate.
pub fn clone_plan(
    store: &SecretStore,
    engine: &CipherEngine,
    project: &[u8],
    password: &Vec<u8>,
) -> (r: Result<Vec<CloneItem>, VaultError>)
    requires
        store.wf(),
        engine.wf(),
    ensures
        r matches Err(e) ==> e == VaultError::AuthenticationFailure && !validate_spec(
            engine.nonce@,
            engine.reference@,
            password@,
        ),
        r matches Ok(items) ==> validate_spec(engine.nonce@, engine.reference@, password@)
            && items@.len() == project_records(store.models(), project@).len() && forall|i: int|
            0 <= i < items@.len() ==> (#[trigger] items@[i]).path@ == project_records(
                store.models(),
                project@,
            )[i].path && decrypt_outcome(
                engine.nonce@,
                derived_key(password@),
                project_records(store.models(), project@)[i].content,
                items@[i].data,
            ),
        r matches Ok(items) ==> forall|i: int|
            0 <= i < items@.len() ==> store@.contains_key((project@, (#[trigger] items@[i]).path@))
                && decrypt_outcome(
                engine.nonce@,
                derived_key(password@),
                store@[(project@, items@[i].path@)],
                items@[i].data,
            ),
        r matches Ok(items) ==> forall|k: (Seq<u8>, Seq<u8>)|
            #[trigger] store@.contains_key(k) && k.0 == project@ ==> exists|i: int|
                0 <= i < items@.len() && (#[trigger] items@[i]).path@ == k.1,
{
    if !engine.validate(password) {
        return Err(VaultError::AuthenticationFailure);
    }
    let ghost pr = project_records(store.models(), project@);
    let recs = store.get_all(project);
    let n = recs.len();
    let mut items: Vec<CloneItem> = Vec::new();
    let mut i: usize = 0;
    while i < n
        invariant
            engine.wf(),
            password@.len() > 0,
            n == recs@.len(),
            recs@.len() == pr.len(),
            forall|j: int| 0 <= j < n ==> (#[trigger] recs@[j])@ == pr[j],
            i <= n,
            items@.len() == i,
            forall|j: int|
                0 <= j < i ==> (#[trigger] items@[j]).path@ == pr[j].path && decrypt_outcome(
                    engine.nonce@,
                    derived_key(password@),
                    pr[j].content,
                    items@[j].data,
                ),
        decreases n - i,
    {
        let rec = &recs[i];
        let path = copy_bytes(rec.path.as_slice());
        let data = engine.decrypt(&rec.content, password);
        items.push(CloneItem { path, data });
        i = i + 1;
    }
    proof {
        let s = store.models();
        crate::store::lemma_store_view(store);
        crate::store::lemma_project_records_complete(s, project@);
        assert forall|j: int| 0 <= j < items@.len() implies store@.contains_key(
            (project@, (#[trigger] items@[j]).path@),
        ) && decrypt_outcome(
            engine.nonce@,
            derived_key(password@),
            store@[(project@, items@[j].path@)],
            items@[j].data,
        ) by {
            let w = choose|w: int| 0 <= w < s.len() && s[w] == pr[j];
            crate::store::lemma_map_of_index(s, w);
            assert(s[w].key() == (project@, items@[j].path@));
        }
        assert forall|k: (Seq<u8>, Seq<u8>)|
            #[trigger] store@.contains_key(k) && k.0 == project@ implies exists|j: int|
                0 <= j < items@.len() && (#[trigger] items@[j]).path@ == k.1 by {
            crate::store::lemma_map_of_contains(s, k);
            let w = choose|w: int| 0 <= w < s.len() && (#[trigger] s[w]).key() == k;
            assert(s[w].project == k.0);
            let j = choose|j: int|
                0 <= j < project_records(s, project@).len() && project_records(s, project@)[j] == s[w];
            assert(items@[j].path@ == k.1);
        }
    }
    Ok(items)
}

/// The drift verdict for one stored plaintext against what is on disk.
pub fn classify_content(plain: &Vec<u8>, disk: &Option<Vec<u8>>) -> (r: CheckStatus)
    ensures
        r == classify(plain@, opt_model(*disk)),
{
    match disk {
        None => CheckStatus::NonExistent,
        Some(d) => {
            if crate::bytes::bytes_eq(d.as_slice(), plain.as_slice()) {
                CheckStatus::Identical
            } else {
                CheckStatus::NonIdentical
            }
        },
    }
}

/// Checks one stored record against the corresponding on-disk content
/// (`None` when the file is missing): decrypts the stored text and hands
/// back the three-way verdict. Read-only; fails with
/// `AuthenticationFailure` when the stored text does not decrypt under the
/// entered password — a wrong password and corrupted data are surfaced
/// identically.
pub fn check_one(
    engine: &CipherEngine,
    password: &Vec<u8>,
    stored: &Vec<u8>,
    disk: &Option<Vec<u8>>,
) -> (r: Result<CheckStatus, VaultError>)
    requires
        engine.wf(),
        password@.len() > 0,
    ensures
        r matches Ok(status) ==> decrypt_text(engine.nonce@, derived_key(password@), stored@)
            matches Ok(plain) && status == classify(plain, opt_model(*disk)),
        r matches Err(e) ==> e == VaultError::AuthenticationFailure && decrypt_text(
            engine.nonce@,
            derived_key(password@),
            stored@,
        ) is Err,
{
    match engine.decrypt(stored, password) {
        Ok(plain) => Ok(classify_content(&plain, disk)),
        Err(_) => Err(VaultError::AuthenticationFailure),
    }
}

/// Stores a secret: validates the password, encrypts the content, joins the
/// resolved folder with the caller-given relative path, and upserts the
/// record under `(project, path)` — inserting when the key is absent, else
/// replacing the stored content. Returns the stored path. An empty relative
/// path is a usage error; a password that does not validate aborts before
/// any write; on every failure the store is left unchanged. The stored text
/// decrypts, under the same password, back to exactly the given content.
pub fn set_op(
    store: &mut SecretStore,
    engine: &CipherEngine,
    loc: &LocationIdentity,
    rel_path: &Vec<u8>,
    content: &Vec<u8>,
    password: &Vec<u8>,
) -> (r: Result<Vec<u8>, VaultError>)
    requires
        old(store).wf(),
        engine.wf(),
        content@.len() <= aead_max_plain(),
        content@.len() * 4 + 96 <= usize::MAX as int * 3,
    ensures
        final(store).wf(),
        r matches Err(e) ==> final(store)@ == old(store)@ && ((e == VaultError::UsageError
            && rel_path@.len() == 0) || (e == VaultError::AuthenticationFailure && rel_path@.len()
            > 0 && !validate_spec(engine.nonce@, engine.reference@, password@))),
        r matches Ok(stored_path) ==> rel_path@.len() > 0 && validate_spec(
            engine.nonce@,
            engine.reference@,
            password@,
        ) && stored_path@ == joined_path(loc@.folder, rel_path@) && final(store)@ == old(
            store,
        )@.insert(
            (loc@.project, stored_path@),
            encrypt_text(engine.nonce@, derived_key(password@), content@),
        ) && decrypt_text(
            engine.nonce@,
            derived_key(password@),
            encrypt_text(engine.nonce@, derived_key(password@), content@),
        ) == Ok::<Seq<u8>, CipherError>(content@),
{
    if rel_path.len() == 0 {
        return Err(VaultError::UsageError);
    }
    if !engine.validate(password) {
        return Err(VaultError::AuthenticationFailure);
    }
    let full = join_path(&loc.folder, rel_path.as_slice());
    let stored_path = copy_bytes(full.as_slice());
    let sealed = engine.encrypt(content, password);
    let record = SecretRecord {
        project: copy_bytes(loc.project.as_slice()),
        path: full,
        content: sealed,
    };
    store.upsert(record);
    Ok(stored_path)
}

/// Removes the secret under the resolved project and the joined relative
/// path, and reports whether a record was in fact deleted; removing an
/// absent key deletes nothing and leaves the store unchanged. An empty
/// relative path is a usage error.
pub fn remove_op(store: &mut SecretStore, loc: &LocationIdentity, rel_path: &Vec<u8>) -> (r: Result<
    RemoveOutcome,
    VaultError,
>)
    requires
        old(store).wf(),
    ensures
        final(store).wf(),
        r matches Err(e) ==> e == VaultError::UsageError && rel_path@.len() == 0 && final(store)@
            == old(store)@,
        r matches Ok(outcome) ==> rel_path@.len() > 0 && final(store)@ == old(store)@.remove(
            (loc@.project, joined_path(loc@.folder, rel_path@)),
        ) && (outcome == RemoveOutcome::Removed <==> old(store)@.contains_key(
            (loc@.project, joined_path(loc@.folder, rel_path@)),
        )) && (!old(store)@.contains_key((loc@.project, joined_path(loc@.folder, rel_path@)))
            ==> final(store)@ == old(store)@),
{
    if rel_path.len() == 0 {
        return Err(VaultError::UsageError);
    }
    let full = join_path(&loc.folder, rel_path.as_slice());
    let deleted = store.delete(loc.project.as_slice(), full.as_slice());
    if deleted == 0 {
        Ok(RemoveOutcome::NotFound)
    } else {
        Ok(RemoveOutcome::Removed)
    }
}

} // verus!
