//! The naming and integrity rules of the transactional package store: every
//! immutable file is named by the SHA-256 of its bytes, and the `CURRENT`
//! pointer holds the lower-case hexadecimal hash of the current state file.
//! The platform adapter performs the file operations.

use sha2::Digest;
use vstd::prelude::*;

verus! {

/// Why a store operation was refused. The adapter keeps the underlying I/O,
/// inventory and package errors; here they are only distinguished.
#[derive(Debug, Clone, Copy, PartialEq, Eq)]
pub enum StoreError {
    Io,
    Inventory,
    Package,
    InvalidFile,
    MissingArtifact,
    UnexpectedArtifact,
    Integrity,
    Busy,
    StaleSnapshot,
    MissingMigrationInput,
    ExistingMigrationState,
    /// The pointer may already be visible. Reload; do not blindly retry.
    CommitUncertain,
}

impl StoreError {
    /// The diagnostic name of the error.
    pub fn describe(&self) -> (r: &'static str)
        ensures
            r@ == match *self {
                StoreError::Io => "package_store_Io"@,
                StoreError::Inventory => "package_store_Inventory"@,
                StoreError::Package => "package_store_Package"@,
                StoreError::InvalidFile => "package_store_InvalidFile"@,
                StoreError::MissingArtifact => "package_store_MissingArtifact"@,
                StoreError::UnexpectedArtifact => "package_store_UnexpectedArtifact"@,
                StoreError::Integrity => "package_store_Integrity"@,
                StoreError::Busy => "package_store_Busy"@,
                StoreError::StaleSnapshot => "package_store_StaleSnapshot"@,
                StoreError::MissingMigrationInput => "package_store_MissingMigrationInput"@,
                StoreError::ExistingMigrationState => "package_store_ExistingMigrationState"@,
                StoreError::CommitUncertain => "package_store_CommitUncertain"@,
            },
    {
        match self {
            StoreError::Io => "package_store_Io",
            StoreError::Inventory => "package_store_Inventory",
            StoreError::Package => "package_store_Package",
            StoreError::InvalidFile => "package_store_InvalidFile",
            StoreError::MissingArtifact => "package_store_MissingArtifact",
            StoreError::UnexpectedArtifact => "package_store_UnexpectedArtifact",
            StoreError::Integrity => "package_store_Integrity",
            StoreError::Busy => "package_store_Busy",
            StoreError::StaleSnapshot => "package_store_StaleSnapshot",
            StoreError::MissingMigrationInput => "package_store_MissingMigrationInput",
            StoreError::ExistingMigrationState => "package_store_ExistingMigrationState",
            StoreError::CommitUncertain => "package_store_CommitUncertain",
        }
    }
}

/// What `sha2::Sha256::digest` returns for the given bytes.
pub uninterp spec fn sha256(bytes: Seq<u8>) -> Seq<u8>;

/// Calls `sha2::Sha256::digest`. The 32-byte result is named by `sha256`;
/// the hash function itself is not restated.
#[verifier::external_body]
pub(crate) fn digest(bytes: &[u8]) -> (r: [u8; 32])
    ensures
        r@ == sha256(bytes@),
{
    sha2::Sha256::digest(bytes).into()
}

/// The lower-case hexadecimal digit of `d < 16`.
pub open spec fn hex_char(d: nat) -> char {
    if d < 10 {
        (48 + d) as char
    } else {
        (87 + d) as char
    }
}

/// Each byte as two lower-case hexadecimal digits, in order.
pub open spec fn hex_text(bytes: Seq<u8>) -> Seq<char>
    decreases bytes.len(),
{
    if bytes.len() == 0 {
        Seq::<char>::empty()
    } else {
        hex_text(bytes.drop_last()) + seq![hex_char(bytes.last() as nat / 16), hex_char(bytes.last() as nat % 16)]
    }
}

proof fn lemma_hex_text_len(bytes: Seq<u8>)
    ensures
        hex_text(bytes).len() == 2 * bytes.len(),
    decreases bytes.len(),
{
    if bytes.len() > 0 {
        lemma_hex_text_len(bytes.drop_last());
    }
}

fn hex_char_exec(d: u8) -> (r: char)
    requires
        d < 16,
    ensures
        r == hex_char(d as nat),
{
    if d < 10 {
        (48u8 + d) as char
    } else {
        (87u8 + d) as char
    }
}

fn hex_chars(bytes: &[u8]) -> (r: Vec<char>)
    ensures
        r@ == hex_text(bytes@),
{
    let mut out: Vec<char> = Vec::new();
    let mut i: usize = 0;
    assert(bytes@.take(0) =~= Seq::<u8>::empty());
    while i < bytes.len()
        invariant
            i <= bytes@.len(),
            out@ == hex_text(bytes@.take(i as int)),
        decreases bytes.len() - i,
    {
        let b = bytes[i];
        assert(bytes@.take(i + 1).drop_last() =~= bytes@.take(i as int));
        assert(bytes@.take(i + 1).last() == b);
        out.push(hex_char_exec(b / 16));
        out.push(hex_char_exec(b % 16));
        i = i + 1;
    }
    assert(bytes@.take(bytes@.len() as int) =~= bytes@);
    out
}

/// The bytes as lower-case hexadecimal text.
pub fn hex(bytes: &[u8]) -> (r: String)
    ensures
        r@ == hex_text(bytes@),
{
    crate::text::string_of(&hex_chars(bytes))
}

fn concat3(a: &str, middle: &[char], c: &str) -> (r: String)
    ensures
        r@ == a@ + middle@ + c@,
{
    let mut out = crate::text::chars_of(a);
    let ghost head = out@;
    let mut i: usize = 0;
    while i < middle.len()
        invariant
            i <= middle@.len(),
            out@ == head + middle@.take(i as int),
        decreases middle.len() - i,
    {
        out.push(middle[i]);
        assert(middle@.take(i + 1) =~= middle@.take(i as int).push(middle@[i as int]));
        i = i + 1;
    }
    assert(middle@.take(middle@.len() as int) =~= middle@);
    let tail = crate::text::chars_of(c);
    let ghost mid = out@;
    let mut j: usize = 0;
    while j < tail.len()
        invariant
            j <= tail@.len(),
            out@ == mid + tail@.take(j as int),
        decreases tail.len() - j,
    {
        out.push(tail[j]);
        assert(tail@.take(j + 1) =~= tail@.take(j as int).push(tail@[j as int]));
        j = j + 1;
    }
    assert(tail@.take(tail@.len() as int) =~= tail@);
    assert(out@ =~= a@ + middle@ + c@);
    crate::text::string_of(&out)
}

/// The file name of the immutable package blob with `hash`.
pub fn blob_name(hash: &[u8; 32]) -> (r: String)
    ensures
        r@ == "blob-"@ + hex_text(hash@) + ".aklp"@,
{
    concat3("blob-", &hex_chars(hash), ".aklp")
}

/// The file name of the immutable state file with `hash`.
pub fn state_name(hash: &[u8; 32]) -> (r: String)
    ensures
        r@ == "state-"@ + hex_text(hash@) + ".json"@,
{
    concat3("state-", &hex_chars(hash), ".json")
}

/// The ASCII code of a character below 128.
pub open spec fn ascii_byte(c: char) -> u8 {
    (c as u32) as u8
}

/// The contents of the `CURRENT` pointer for state `hash`.
pub open spec fn pointer_text(hash: Seq<u8>) -> Seq<u8> {
    hex_text(hash).map_values(|c: char| ascii_byte(c))
}

/// The bytes that the `CURRENT` pointer holds for `hash`.
pub fn pointer_bytes(hash: &[u8; 32]) -> (r: Vec<u8>)
    ensures
        r@ == pointer_text(hash@),
{
    let text = hex_chars(hash);
    let mut out: Vec<u8> = Vec::new();
    let mut i: usize = 0;
    while i < text.len()
        invariant
            i <= text@.len(),
            text@ == hex_text(hash@),
            out@ == text@.take(i as int).map_values(|c: char| ascii_byte(c)),
        decreases text.len() - i,
    {
        proof {
            lemma_hex_chars_ascii(hash@, i as int);
        }
        let c = text[i];
        out.push(c as u8);
        assert(text@.take(i + 1).map_values(|c: char| ascii_byte(c)) =~= text@.take(i as int).map_values(
            |c: char| ascii_byte(c),
        ).push(ascii_byte(c)));
        i = i + 1;
    }
    assert(text@.take(text@.len() as int) =~= text@);
    out
}

proof fn lemma_hex_chars_ascii(bytes: Seq<u8>, k: int)
    requires
        0 <= k < hex_text(bytes).len(),
    ensures
        (hex_text(bytes)[k] as u32) < 128,
        ('0' <= hex_text(bytes)[k] && hex_text(bytes)[k] <= '9') || ('a' <= hex_text(bytes)[k]
            && hex_text(bytes)[k] <= 'f'),
    decreases bytes.len(),
{
    if bytes.len() > 0 {
        let init = hex_text(bytes.drop_last());
        if k < init.len() {
            lemma_hex_chars_ascii(bytes.drop_last(), k);
        }
    }
}

/// The value of a lower-case hexadecimal digit byte.
pub open spec fn hex_digit_value(b: u8) -> Option<u8> {
    if 48 <= b && b <= 57 {
        Some((b - 48) as u8)
    } else if 97 <= b && b <= 102 {
        Some((b - 87) as u8)
    } else {
        None
    }
}

/// A pointer file: exactly 64 lower-case hexadecimal digits.
pub open spec fn pointer_ok(bytes: Seq<u8>) -> bool {
    bytes.len() == 64 && forall|k: int| 0 <= k < 64 ==> #[trigger] hex_digit_value(bytes[k]) is Some
}

/// The hash a valid pointer file spells.
pub open spec fn pointer_hash(bytes: Seq<u8>) -> Seq<u8> {
    Seq::new(
        32,
        |i: int| (hex_digit_value(bytes[2 * i])->0 * 16 + hex_digit_value(bytes[2 * i + 1])->0) as u8,
    )
}

fn hex_digit_value_exec(b: u8) -> (r: Option<u8>)
    ensures
        r == hex_digit_value(b),
{
    if 48 <= b && b <= 57 {
        Some(b - 48)
    } else if 97 <= b && b <= 102 {
        Some(b - 87)
    } else {
        None
    }
}

/// Read the `CURRENT` pointer: the state hash it spells, or `InvalidFile`.
pub fn parse_pointer(bytes: &[u8]) -> (r: Result<[u8; 32], StoreError>)
    ensures
        match r {
            Ok(h) => pointer_ok(bytes@) && h@ == pointer_hash(bytes@),
            Err(e) => !pointer_ok(bytes@) && e == StoreError::InvalidFile,
        },
{
    if bytes.len() != 64 {
        return Err(StoreError::InvalidFile);
    }
    let mut out: [u8; 32] = [0u8; 32];
    let mut i: usize = 0;
    while i < 32
        invariant
            i <= 32,
            bytes@.len() == 64,
            out@.len() == 32,
            forall|k: int| 0 <= k < 2 * i ==> #[trigger] hex_digit_value(bytes@[k]) is Some,
            forall|j: int| 0 <= j < i ==> #[trigger] out@[j] == pointer_hash(bytes@)[j],
        decreases 32 - i,
    {
        let hi = match hex_digit_value_exec(bytes[2 * i]) {
            Some(v) => v,
            None => return Err(StoreError::InvalidFile),
        };
        let lo = match hex_digit_value_exec(bytes[2 * i + 1]) {
            Some(v) => v,
            None => return Err(StoreError::InvalidFile),
        };
        assert(hi < 16 && lo < 16);
        out[i] = hi * 16 + lo;
        assert forall|k: int| 0 <= k < 2 * (i + 1) implies #[trigger] hex_digit_value(bytes@[k]) is Some by {
            if k < 2 * i {
            } else if k == 2 * i {
            } else {
            }
        }
        i = i + 1;
    }
    assert(out@ =~= pointer_hash(bytes@));
    Ok(out)
}

/// A state file matches its pointer only when its SHA-256 is the pointed
/// hash.
pub fn check_state_integrity(state: &[u8], hash: &[u8; 32]) -> (r: Result<(), StoreError>)
    ensures
        r is Ok == (sha256(state@) == hash@),
        r is Err ==> r == Err::<(), StoreError>(StoreError::Integrity),
{
    let actual = digest(state);
    let mut i: usize = 0;
    while i < 32
        invariant
            i <= 32,
            actual@.len() == 32,
            hash@.len() == 32,
            actual@ == sha256(state@),
            forall|k: int| 0 <= k < i ==> actual@[k] == hash@[k],
        decreases 32 - i,
    {
        if actual[i] != hash[i] {
            return Err(StoreError::Integrity);
        }
        i = i + 1;
    }
    assert(actual@ =~= hash@);
    Ok(())
}

fn same_hash(a: &[u8; 32], b: &[u8; 32]) -> (r: bool)
    ensures
        r == (a@ == b@),
{
    let mut i: usize = 0;
    while i < 32
        invariant
            i <= 32,
            a@.len() == 32,
            b@.len() == 32,
            forall|k: int| 0 <= k < i ==> a@[k] == b@[k],
        decreases 32 - i,
    {
        if a[i] != b[i] {
            return false;
        }
        i = i + 1;
    }
    assert(a@ =~= b@);
    true
}

/// What the store's state requires of one artifact: its size and SHA-256.
#[derive(Debug, Clone, Copy, PartialEq, Eq)]
pub struct ArtifactReceipt {
    pub sha256: [u8; 32],
    pub bytes: u64,
}

/// Whether `bytes` is exactly the artifact that `receipt` describes.
pub open spec fn matches_receipt(bytes: Seq<u8>, receipt: ArtifactReceipt) -> bool {
    bytes.len() == receipt.bytes && sha256(bytes) == receipt.sha256@
}

/// Whether `bytes` is exactly the artifact that `receipt` describes.
pub fn artifact_matches(bytes: &[u8], receipt: &ArtifactReceipt) -> (r: bool)
    ensures
        r == matches_receipt(bytes@, *receipt),
{
    if bytes.len() as u64 != receipt.bytes {
        return false;
    }
    let hash = digest(bytes);
    same_hash(&hash, &receipt.sha256)
}

/// A read artifact checked against its receipt: `Integrity` unless it
/// matches exactly.
pub fn check_artifact(bytes: &[u8], receipt: &ArtifactReceipt) -> (r: Result<(), StoreError>)
    ensures
        r is Ok == matches_receipt(bytes@, *receipt),
        r is Err ==> r == Err::<(), StoreError>(StoreError::Integrity),
{
    if artifact_matches(bytes, receipt) {
        Ok(())
    } else {
        Err(StoreError::Integrity)
    }
}

pub open spec fn byte_views(v: Seq<Vec<u8>>) -> Seq<Seq<u8>> {
    v.map_values(|b: Vec<u8>| b@)
}

/// The total size of some artifacts.
pub open spec fn total_size(arts: Seq<Seq<u8>>) -> int
    decreases arts.len(),
{
    if arts.len() == 0 {
        0
    } else {
        total_size(arts.drop_last()) + arts.last().len()
    }
}

/// Whether artifact `a` is one of the receipts, by hash and size.
pub open spec fn receipted(receipts: Seq<ArtifactReceipt>, a: Seq<u8>) -> bool {
    exists|r: int| 0 <= r < receipts.len() && matches_receipt(a, #[trigger] receipts[r])
}

/// Supplied artifacts that a commit refuses: more than the receipts, too
/// large one by one or together, not required by the new state, or the
/// same artifact twice.
pub open spec fn unexpected_artifacts(
    receipts: Seq<ArtifactReceipt>,
    arts: Seq<Seq<u8>>,
    max_package_bytes: nat,
    max_total_bytes: nat,
) -> bool {
    ||| arts.len() > receipts.len()
    ||| total_size(arts) > max_total_bytes
    ||| exists|i: int| 0 <= i < arts.len() && (#[trigger] arts[i]).len() > max_package_bytes
    ||| exists|i: int| 0 <= i < arts.len() && !receipted(receipts, #[trigger] arts[i])
    ||| exists|i: int, j: int| 0 <= i < j < arts.len() && sha256(#[trigger] arts[i]) == sha256(#[trigger] arts[j])
}

fn receipted_exec(receipts: &[ArtifactReceipt], bytes: &[u8], hash: &[u8; 32]) -> (r: bool)
    requires
        hash@ == sha256(bytes@),
    ensures
        r == receipted(receipts@, bytes@),
{
    let mut i: usize = 0;
    while i < receipts.len()
        invariant
            i <= receipts@.len(),
            hash@ == sha256(bytes@),
            forall|k: int| 0 <= k < i ==> !matches_receipt(bytes@, #[trigger] receipts@[k]),
        decreases receipts.len() - i,
    {
        if bytes.len() as u64 == receipts[i].bytes && same_hash(hash, &receipts[i].sha256) {
            assert(matches_receipt(bytes@, receipts@[i as int]));
            return true;
        }
        i = i + 1;
    }
    false
}

/// Check the artifacts supplied to a commit against the receipts of the new
/// state; on success, their hashes in order.
pub fn check_supplied_artifacts(
    receipts: &[ArtifactReceipt],
    artifacts: &[Vec<u8>],
    max_package_bytes: usize,
    max_total_bytes: u64,
) -> (r: Result<Vec<[u8; 32]>, StoreError>)
    ensures
        match r {
            Ok(hashes) => !unexpected_artifacts(receipts@, byte_views(artifacts@), max_package_bytes as nat, max_total_bytes as nat)
                && hashes@.len() == artifacts@.len() && forall|i: int|
                0 <= i < hashes@.len() ==> (#[trigger] hashes@[i])@ == sha256(artifacts@[i]@),
            Err(e) => e == StoreError::UnexpectedArtifact && unexpected_artifacts(
                receipts@,
                byte_views(artifacts@),
                max_package_bytes as nat,
                max_total_bytes as nat,
            ),
        },
{
    let ghost arts = byte_views(artifacts@);
    if artifacts.len() > receipts.len() {
        return Err(StoreError::UnexpectedArtifact);
    }
    let mut total: u64 = 0;
    let mut i: usize = 0;
    assert(arts.take(0) =~= Seq::<Seq<u8>>::empty());
    while i < artifacts.len()
        invariant
            i <= artifacts@.len(),
            arts == byte_views(artifacts@),
            total == total_size(arts.take(i as int)),
            total <= max_total_bytes,
        decreases artifacts.len() - i,
    {
        assert(arts.take(i + 1).drop_last() =~= arts.take(i as int));
        assert(arts[i as int] == artifacts@[i as int]@);
        let n = artifacts[i].len() as u64;
        if n > max_total_bytes - total {
            proof {
                lemma_total_size_grows(arts, i as int + 1);
            }
            return Err(StoreError::UnexpectedArtifact);
        }
        total = total + n;
        i = i + 1;
    }
    assert(arts.take(arts.len() as int) =~= arts);
    let mut hashes: Vec<[u8; 32]> = Vec::new();
    let mut j: usize = 0;
    while j < artifacts.len()
        invariant
            j <= artifacts@.len(),
            arts == byte_views(artifacts@),
            hashes@.len() == j,
            forall|k: int| 0 <= k < j ==> (#[trigger] hashes@[k])@ == sha256(arts[k]),
            forall|k: int| 0 <= k < j ==> (#[trigger] arts[k]).len() <= max_package_bytes,
            forall|k: int| 0 <= k < j ==> receipted(receipts@, #[trigger] arts[k]),
            forall|a: int, b: int| 0 <= a < b < j ==> sha256(#[trigger] arts[a]) != sha256(#[trigger] arts[b]),
        decreases artifacts.len() - j,
    {
        assert(arts[j as int] == artifacts@[j as int]@);
        if artifacts[j].len() > max_package_bytes {
            return Err(StoreError::UnexpectedArtifact);
        }
        let hash = digest(artifacts[j].as_slice());
        if !receipted_exec(receipts, artifacts[j].as_slice(), &hash) {
            return Err(StoreError::UnexpectedArtifact);
        }
        let mut k: usize = 0;
        while k < j
            invariant
                k <= j < artifacts@.len(),
                arts == byte_views(artifacts@),
                hashes@.len() == j,
                hash@ == sha256(arts[j as int]),
                forall|m: int| 0 <= m < j ==> (#[trigger] hashes@[m])@ == sha256(arts[m]),
                forall|m: int| 0 <= m < k ==> sha256(#[trigger] arts[m]) != sha256(arts[j as int]),
            decreases j - k,
        {
            if same_hash(&hashes[k], &hash) {
                assert(sha256(arts[k as int]) == sha256(arts[j as int]));
                return Err(StoreError::UnexpectedArtifact);
            }
            k = k + 1;
        }
        hashes.push(hash);
        j = j + 1;
    }
    Ok(hashes)
}

proof fn lemma_total_size_grows(arts: Seq<Seq<u8>>, j: int)
    requires
        0 <= j <= arts.len(),
    ensures
        total_size(arts.take(j)) <= total_size(arts),
    decreases arts.len() - j,
{
    if j < arts.len() {
        assert(arts.take(j + 1).drop_last() =~= arts.take(j));
        lemma_total_size_grows(arts, j + 1);
    } else {
        assert(arts.take(j) =~= arts);
    }
}

/// Where a state is written: the immutable state file named by its hash,
/// and the pointer contents that make it current.
pub fn state_entry(state: &[u8]) -> (r: (String, Vec<u8>))
    ensures
        r.0@ == "state-"@ + hex_text(sha256(state@)) + ".json"@,
        r.1@ == pointer_text(sha256(state@)),
{
    let hash = digest(state);
    (state_name(&hash), pointer_bytes(&hash))
}

/// The pointer that is written for a hash reads back as that hash.
pub proof fn lemma_pointer_roundtrip(hash: Seq<u8>)
    requires
        hash.len() == 32,
    ensures
        pointer_ok(pointer_text(hash)),
        pointer_hash(pointer_text(hash)) == hash,
{
    lemma_hex_text_len(hash);
    let p = pointer_text(hash);
    assert forall|k: int| 0 <= k < 64 implies #[trigger] hex_digit_value(p[k]) is Some by {
        lemma_hex_chars_ascii(hash, k);
    }
    assert forall|i: int| 0 <= i < 32 implies #[trigger] pointer_hash(p)[i] == hash[i] by {
        lemma_hex_pair(hash, i);
    }
    assert(pointer_hash(p) =~= hash);
}

proof fn lemma_hex_pair(bytes: Seq<u8>, i: int)
    requires
        0 <= i < bytes.len(),
    ensures
        hex_text(bytes).len() == 2 * bytes.len(),
        hex_text(bytes)[2 * i] == hex_char(bytes[i] as nat / 16),
        hex_text(bytes)[2 * i + 1] == hex_char(bytes[i] as nat % 16),
        hex_digit_value(ascii_byte(hex_char(bytes[i] as nat / 16))) == Some((bytes[i] / 16) as u8),
        hex_digit_value(ascii_byte(hex_char(bytes[i] as nat % 16))) == Some((bytes[i] % 16) as u8),
    decreases bytes.len(),
{
    lemma_hex_text_len(bytes);
    lemma_hex_text_len(bytes.drop_last());
    if i < bytes.len() - 1 {
        lemma_hex_pair(bytes.drop_last(), i);
    }
}

/// What the store writes for a state is what it accepts when loading it: the
/// pointer parses to the state's hash and the state passes the integrity
/// check against it.
pub proof fn lemma_written_state_loads(state: Seq<u8>)
    requires
        sha256(state).len() == 32,
    ensures
        pointer_ok(pointer_text(sha256(state))),
        pointer_hash(pointer_text(sha256(state))) == sha256(state),
{
    lemma_pointer_roundtrip(sha256(state));
}

} // verus!
