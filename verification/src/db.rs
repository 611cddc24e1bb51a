//! The decisions behind the chat's persistence: password records, session
//! tokens, direct-chat keys and the grouping of a user's rooms.

use vstd::prelude::*;

use core::time::Duration;
use std::time::{SystemTime, UNIX_EPOCH};

use sha2::{Digest, Sha256};
use vstd::utf8::encode_utf8;

use crate::protocol::{strings_view, Attachment};
use crate::text::{chars_of, join3, lemma_lt_total, seq_lt, str_lt, string_from_chars};

verus! {

/// A message as history returns it.
#[derive(Debug, Clone)]
pub struct StoredMessage {
    pub from: String,
    pub text: String,
    pub ts: i64,
    pub attachment: Option<Attachment>,
}

pub struct AttachmentView {
    pub id: Seq<char>,
    pub name: Seq<char>,
    pub mime: Seq<char>,
    pub size: i64,
}

pub struct StoredMessageView {
    pub from: Seq<char>,
    pub text: Seq<char>,
    pub ts: i64,
    pub attachment: Option<AttachmentView>,
}

impl View for StoredMessage {
    type V = StoredMessageView;

    open spec fn view(&self) -> StoredMessageView {
        StoredMessageView {
            from: self.from@,
            text: self.text@,
            ts: self.ts,
            attachment: match self.attachment {
                Some(a) => Some(AttachmentView { id: a.id@, name: a.name@, mime: a.mime@, size: a.size }),
                None => None,
            },
        }
    }
}

/// Messages returned when a chat is opened.
pub const HISTORY_LIMIT: i64 = 100;

/// The group every user belongs to.
pub open spec fn default_room() -> Seq<char> {
    "general"@
}

#[verifier::external_type_specification]
#[verifier::external_body]
pub struct ExSystemTime(SystemTime);

/// `SystemTime::now`: the clock's reading. Nothing is stated of it.
#[verifier::external_body]
fn clock_now() -> SystemTime {
    SystemTime::now()
}

/// `SystemTime::duration_since(UNIX_EPOCH)`, `None` for a reading before the
/// epoch. Nothing is stated of the duration: it depends on the clock.
#[verifier::external_body]
fn since_unix_epoch(t: &SystemTime) -> Option<Duration> {
    t.duration_since(UNIX_EPOCH).ok()
}

/// `Duration::as_millis`. Nothing is stated: the duration is opaque here.
#[verifier::external_body]
fn duration_millis(d: &Duration) -> u128 {
    d.as_millis()
}

/// `Duration::as_nanos`. Nothing is stated: the duration is opaque here.
#[verifier::external_body]
fn duration_nanos(d: &Duration) -> u128 {
    d.as_nanos()
}

/// A reading of the clock as the chat stamps it: the milliseconds since the
/// Unix epoch as an `i64` (as `as` converts them), or 0 for a reading before
/// the epoch.
pub open spec fn spec_millis_or_zero(since: Option<u128>) -> i64 {
    match since {
        Some(ms) => ms as i64,
        None => 0,
    }
}

/// Turns a reading of the clock into the chat's time stamp (see
/// `spec_millis_or_zero`).
pub fn millis_or_zero(since: Option<u128>) -> (r: i64)
    ensures
        r == spec_millis_or_zero(since),
{
    match since {
        Some(ms) => ms as i64,
        None => 0,
    }
}

/// Milliseconds since the Unix epoch by the system clock, 0 before the epoch.
/// Which reading the clock gives is the clock's: the stamp is the one
/// `millis_or_zero` makes of it.
pub fn now_ms() -> (ms: i64)
    ensures
        exists|since: Option<u128>| ms == spec_millis_or_zero(since),
{
    let since = match since_unix_epoch(&clock_now()) {
        Some(d) => Some(duration_millis(&d)),
        None => None,
    };
    let ms = millis_or_zero(since);
    assert(ms == spec_millis_or_zero(since));
    ms
}

/// Nanoseconds since the Unix epoch by the system clock, 0 before the epoch.
pub(crate) fn now_nanos() -> u128 {
    match since_unix_epoch(&clock_now()) {
        Some(d) => duration_nanos(&d),
        None => 0,
    }
}

/// The SHA-256 digest of `data`.
pub uninterp spec fn spec_sha256(data: Seq<u8>) -> Seq<u8>;

/// `sha2::Sha256::digest`: the digest is named by `spec_sha256`, and is 32 bytes
/// long, as the SHA-256 standard fixes.
#[verifier::external_body]
fn sha256_digest(data: &[u8]) -> (d: Vec<u8>)
    ensures
        d@ == spec_sha256(data@),
        d@.len() == 32,
{
    Sha256::digest(data).to_vec()
}

/// The lower-case hexadecimal digit of `n < 16`.
pub open spec fn hex_digit(n: int) -> char {
    seq!['0', '1', '2', '3', '4', '5', '6', '7', '8', '9', 'a', 'b', 'c', 'd', 'e', 'f'][n]
}

/// Lower-case hexadecimal text of `data`, high nibble first.
pub open spec fn hex_lower(data: Seq<u8>) -> Seq<char>
    decreases data.len(),
{
    if data.len() == 0 {
        Seq::empty()
    } else {
        hex_lower(data.drop_last()) + seq![
            hex_digit(data.last() as int / 16),
            hex_digit(data.last() as int % 16),
        ]
    }
}

/// `hex::encode`: lower-case hexadecimal text, two digits per byte, high nibble
/// first, as the crate's documentation and source show.
#[verifier::external_body]
fn hex_encode(data: &[u8]) -> (s: String)
    ensures
        s@ == hex_lower(data@),
{
    hex::encode(data)
}

/// Appends the bytes of `b` to `v`.
fn append_bytes(v: &mut Vec<u8>, b: &[u8])
    ensures
        final(v)@ == old(v)@ + b@,
{
    let mut i: usize = 0;
    let ghost start = v@;
    while i < b.len()
        invariant
            i <= b.len(),
            v@ == start + b@.take(i as int),
        decreases b.len() - i,
    {
        v.push(b[i]);
        assert(b@.take(i + 1) =~= b@.take(i as int).push(b@[i as int]));
        assert(start + b@.take(i + 1) =~= (start + b@.take(i as int)).push(b@[i as int]));
        i = i + 1;
    }
    assert(b@.take(b.len() as int) =~= b@);
}

/// The hash stored for `password` with `salt`: SHA-256 of `salt$password`, in hex.
pub open spec fn spec_hash_password(password: Seq<char>, salt: Seq<char>) -> Seq<char> {
    hex_lower(spec_sha256(encode_utf8(salt) + seq![36u8] + encode_utf8(password)))
}

pub fn hash_password(password: &str, salt: &str) -> (h: String)
    ensures
        h@ == spec_hash_password(password@, salt@),
{
    let mut data: Vec<u8> = Vec::new();
    append_bytes(&mut data, salt.as_bytes());
    data.push(36u8);
    append_bytes(&mut data, password.as_bytes());
    assert(data@ =~= encode_utf8(salt@) + seq![36u8] + encode_utf8(password@));
    let digest = sha256_digest(data.as_slice());
    hex_encode(digest.as_slice())
}

/// The decimal text of `n`, as ASCII bytes: what `to_string` gives for an integer.
pub open spec fn decimal(n: nat) -> Seq<u8>
    decreases n,
{
    if n < 10 {
        seq![(48 + n) as u8]
    } else {
        decimal(n / 10).push((48 + n % 10) as u8)
    }
}

fn decimal_bytes(n: u128) -> (r: Vec<u8>)
    ensures
        r@ == decimal(n as nat),
    decreases n,
{
    if n < 10 {
        let mut r: Vec<u8> = Vec::new();
        r.push((48 + n) as u8);
        assert(r@ =~= decimal(n as nat));
        r
    } else {
        let mut r = decimal_bytes(n / 10);
        r.push((48 + n % 10) as u8);
        r
    }
}

/// What is hashed to seed a salt or a token: the name, the clock reading, a label.
pub open spec fn seed_bytes(name: Seq<char>, nanos: nat, label: Seq<char>) -> Seq<u8> {
    encode_utf8(name) + decimal(nanos) + encode_utf8(label)
}

fn seeded_digest(name: &str, nanos: u128, label: &str) -> (d: Vec<u8>)
    ensures
        d@ == spec_sha256(seed_bytes(name@, nanos as nat, label@)),
        d@.len() == 32,
{
    let mut data: Vec<u8> = Vec::new();
    append_bytes(&mut data, name.as_bytes());
    let digits = decimal_bytes(nanos);
    append_bytes(&mut data, digits.as_slice());
    append_bytes(&mut data, label.as_bytes());
    sha256_digest(data.as_slice())
}

/// The salt for `name` at clock reading `nanos`: the first 8 bytes of its seed's digest, in hex.
pub open spec fn spec_salt(name: Seq<char>, nanos: nat) -> Seq<char> {
    hex_lower(spec_sha256(seed_bytes(name, nanos, "salt_seed"@)).take(8))
}

/// The session token for `name` at clock reading `nanos`: its seed's digest, in hex.
pub open spec fn spec_token(name: Seq<char>, nanos: nat) -> Seq<char> {
    hex_lower(spec_sha256(seed_bytes(name, nanos, "auth_token_key"@)))
}

pub fn salt_from_seed(name: &str, nanos: u128) -> (s: String)
    ensures
        s@ == spec_salt(name@, nanos as nat),
{
    let d = seeded_digest(name, nanos, "salt_seed");
    let mut first: Vec<u8> = Vec::new();
    let mut i: usize = 0;
    while i < 8
        invariant
            i <= 8,
            d@.len() == 32,
            first@ == d@.take(i as int),
        decreases 8 - i,
    {
        first.push(d[i]);
        assert(d@.take(i + 1) =~= d@.take(i as int).push(d@[i as int]));
        i = i + 1;
    }
    hex_encode(first.as_slice())
}

pub fn token_from_seed(name: &str, nanos: u128) -> (t: String)
    ensures
        t@ == spec_token(name@, nanos as nat),
{
    let d = seeded_digest(name, nanos, "auth_token_key");
    hex_encode(d.as_slice())
}

/// A fresh salt for `name`, seeded by the clock.
pub fn generate_salt(name: &str) -> (s: String)
    ensures
        exists|nanos: nat| s@ == spec_salt(name@, nanos),
{
    salt_from_seed(name, now_nanos())
}

/// A fresh session token for `name`, seeded by the clock.
pub fn generate_token(name: &str) -> (t: String)
    ensures
        exists|nanos: nat| t@ == spec_token(name@, nanos),
{
    token_from_seed(name, now_nanos())
}

/// The key of the direct chat between `a` and `b`: the two names in order,
/// joined by `|`.
pub open spec fn spec_dm_key(a: Seq<char>, b: Seq<char>) -> Seq<char> {
    if !seq_lt(b, a) {
        a + "|"@ + b
    } else {
        b + "|"@ + a
    }
}

/// Conversation key for a direct chat; the same for both participants.
pub fn dm_key(a: &str, b: &str) -> (k: String)
    ensures
        k@ == spec_dm_key(a@, b@),
{
    if !str_lt(&b.to_owned(), &a.to_owned()) {
        join3(a, "|", b)
    } else {
        join3(b, "|", a)
    }
}

/// Both participants of a direct chat get the same key.
pub proof fn law_dm_key_symmetric(a: Seq<char>, b: Seq<char>)
    ensures
        spec_dm_key(a, b) == spec_dm_key(b, a),
{
    lemma_lt_total(a, b);
    crate::text::lemma_lt_asymmetric(a, b);
}

/// A text with no `|`, as every valid user name is.
pub open spec fn no_bar(s: Seq<char>) -> bool {
    forall|i: int| 0 <= i < s.len() ==> #[trigger] s[i] != '|'
}

/// A text `x|y` with no `|` in `x` splits back into `x` and `y`.
proof fn lemma_bar_split(x: Seq<char>, y: Seq<char>, u: Seq<char>, v: Seq<char>)
    requires
        no_bar(x),
        no_bar(u),
        x + "|"@ + y == u + "|"@ + v,
    ensures
        x == u,
        y == v,
{
    reveal_strlit("|");
    let l = x + "|"@ + y;
    let r = u + "|"@ + v;
    assert(l[x.len() as int] == '|');
    assert(r[u.len() as int] == '|');
    if x.len() < u.len() {
        assert(r[x.len() as int] == u[x.len() as int]);
    } else if u.len() < x.len() {
        assert(l[u.len() as int] == x[u.len() as int]);
    }
    assert(x =~= l.take(x.len() as int));
    assert(u =~= r.take(u.len() as int));
    assert(y =~= l.skip(x.len() as int + 1));
    assert(v =~= r.skip(u.len() as int + 1));
}

/// Different pairs of people have different direct chats: for names without
/// `|`, two keys are equal only for the same two people.
pub proof fn law_dm_key_tells_pairs_apart(a: Seq<char>, b: Seq<char>, c: Seq<char>, d: Seq<char>)
    requires
        no_bar(a),
        no_bar(b),
        no_bar(c),
        no_bar(d),
        spec_dm_key(a, b) == spec_dm_key(c, d),
    ensures
        (a == c && b == d) || (a == d && b == c),
{
    if !seq_lt(b, a) {
        if !seq_lt(d, c) {
            lemma_bar_split(a, b, c, d);
        } else {
            lemma_bar_split(a, b, d, c);
        }
    } else {
        if !seq_lt(d, c) {
            lemma_bar_split(b, a, c, d);
        } else {
            lemma_bar_split(b, a, d, c);
        }
    }
}

/// How many times `c` occurs in `s`.
pub open spec fn count_char(s: Seq<char>, c: char) -> nat
    decreases s.len(),
{
    if s.len() == 0 {
        0
    } else {
        count_char(s.drop_last(), c) + if s.last() == c { 1nat } else { 0nat }
    }
}

/// Where `c` first occurs in `s` (the length of `s` where it does not).
pub open spec fn first_index(s: Seq<char>, c: char) -> int
    decreases s.len(),
{
    if s.len() == 0 {
        0
    } else if s.last() == c && count_char(s.drop_last(), c) == 0 {
        s.len() - 1
    } else if count_char(s.drop_last(), c) == 0 {
        s.len() as int
    } else {
        first_index(s.drop_last(), c)
    }
}

/// A stored password record `salt$hash` split at its `$`; `None` unless it
/// holds exactly one (what `split('$')` into two parts finds).
pub open spec fn split_record(s: Seq<char>) -> Option<(Seq<char>, Seq<char>)> {
    if count_char(s, '$') == 1 {
        Some((s.take(first_index(s, '$')), s.skip(first_index(s, '$') + 1)))
    } else {
        None
    }
}

pub open spec fn corrupted_text() -> Seq<char> {
    "Corrupted account data."@
}

pub open spec fn incorrect_password_text() -> Seq<char> {
    "Incorrect password."@
}

/// What checking `password` against the stored record answers.
pub open spec fn spec_check_password(stored: Seq<char>, password: Seq<char>) -> Result<(), Seq<char>> {
    match split_record(stored) {
        None => Err(corrupted_text()),
        Some((salt, expected)) => if spec_hash_password(password, salt) == expected {
            Ok(())
        } else {
            Err(incorrect_password_text())
        },
    }
}

/// The stored record of a password: `salt$hash`.
pub open spec fn spec_password_record(salt: Seq<char>, hash: Seq<char>) -> Seq<char> {
    salt + "$"@ + hash
}

pub fn password_record(salt: &str, hash: &str) -> (r: String)
    ensures
        r@ == spec_password_record(salt@, hash@),
{
    join3(salt, "$", hash)
}

proof fn lemma_count_first(s: Seq<char>, c: char, i: int)
    requires
        0 <= i <= s.len(),
        forall|j: int| 0 <= j < i ==> #[trigger] s[j] != c,
    ensures
        count_char(s.take(i), c) == 0,
        first_index(s.take(i), c) == i,
    decreases i,
{
    if i > 0 {
        assert(s.take(i).drop_last() =~= s.take(i - 1));
        lemma_count_first(s, c, i - 1);
    }
}

proof fn lemma_count_append(a: Seq<char>, b: Seq<char>, c: char)
    ensures
        count_char(a + b, c) == count_char(a, c) + count_char(b, c),
    decreases b.len(),
{
    if b.len() == 0 {
        assert(a + b =~= a);
    } else {
        assert((a + b).drop_last() =~= a + b.drop_last());
        lemma_count_append(a, b.drop_last(), c);
    }
}

proof fn lemma_first_index_prefix(a: Seq<char>, b: Seq<char>, c: char)
    requires
        count_char(a, c) > 0,
    ensures
        first_index(a + b, c) == first_index(a, c),
    decreases b.len(),
{
    if b.len() == 0 {
        assert(a + b =~= a);
    } else {
        assert((a + b).drop_last() =~= a + b.drop_last());
        lemma_count_append(a, b.drop_last(), c);
        lemma_first_index_prefix(a, b.drop_last(), c);
    }
}

/// Hexadecimal text holds no `$`.
proof fn lemma_hex_no_dollar(d: Seq<u8>)
    ensures
        count_char(hex_lower(d), '$') == 0,
    decreases d.len(),
{
    if d.len() > 0 {
        lemma_hex_no_dollar(d.drop_last());
        let hi = d.last() as int / 16;
        let lo = d.last() as int % 16;
        assert(hex_digit(hi) != '$');
        assert(hex_digit(lo) != '$');
        let pair = seq![hex_digit(d.last() as int / 16), hex_digit(d.last() as int % 16)];
        assert(pair.drop_last() =~= seq![hex_digit(d.last() as int / 16)]);
        assert(seq![hex_digit(d.last() as int / 16)].drop_last() =~= Seq::<char>::empty());
        assert(count_char(Seq::<char>::empty(), '$') == 0);
        assert(count_char(seq![hex_digit(hi)], '$') == 0);
        assert(count_char(pair, '$') == 0);
        lemma_count_append(hex_lower(d.drop_last()), pair, '$');
        assert(hex_lower(d) == hex_lower(d.drop_last()) + pair);
    } else {
        assert(hex_lower(d) =~= Seq::<char>::empty());
        assert(count_char(Seq::<char>::empty(), '$') == 0);
    }
}

/// A record made from a salt without `$` splits back into that salt and that hash.
pub proof fn lemma_split_record(salt: Seq<char>, hash: Seq<char>)
    requires
        count_char(salt, '$') == 0,
        count_char(hash, '$') == 0,
    ensures
        split_record(spec_password_record(salt, hash)) == Some((salt, hash)),
{
    let d = "$"@;
    let s = salt + d + hash;
    reveal_strlit("$");
    assert(d =~= seq!['$']);
    assert(d.drop_last() =~= Seq::<char>::empty());
    assert(count_char(Seq::<char>::empty(), '$') == 0);
    assert(count_char(d, '$') == 1);
    lemma_count_append(salt, d, '$');
    lemma_count_append(salt + d, hash, '$');
    assert(count_char(salt + d, '$') == 1);
    assert((salt + d).drop_last() =~= salt);
    assert(first_index(salt + d, '$') == salt.len());
    lemma_first_index_prefix(salt + d, hash, '$');
    assert(s.take(salt.len() as int) =~= salt);
    assert(s.skip(salt.len() as int + 1) =~= hash);
}

pub open spec fn name_taken_text() -> Seq<char> {
    "Username is already taken."@
}

pub open spec fn account_not_found_text() -> Seq<char> {
    "Account not found. Please create an account."@
}

/// Whether a name may be registered: refused where an account has it.
pub fn name_available(taken: bool) -> (r: Result<(), String>)
    ensures
        r is Ok <==> !taken,
        r matches Err(e) ==> e@ == name_taken_text(),
{
    if taken {
        Err("Username is already taken.".to_owned())
    } else {
        Ok(())
    }
}

/// What signing in answers, given the account's stored password record if
/// there is an account: refused without one, else as the record checks.
pub fn sign_in_check(stored: Option<&str>, password: &str) -> (r: Result<(), String>)
    ensures
        match stored {
            None => r matches Err(e) && e@ == account_not_found_text(),
            Some(s) => match (r, spec_check_password(s@, password@)) {
                (Ok(()), Ok(())) => true,
                (Err(e), Err(f)) => e@ == f,
                _ => false,
            },
        },
{
    match stored {
        None => Err("Account not found. Please create an account.".to_owned()),
        Some(s) => check_password(s, password),
    }
}

/// Checks `password` against a stored `salt$hash` record.
pub fn check_password(stored: &str, password: &str) -> (r: Result<(), String>)
    ensures
        match (r, spec_check_password(stored@, password@)) {
            (Ok(()), Ok(())) => true,
            (Err(e), Err(f)) => e@ == f,
            _ => false,
        },
{
    let v = chars_of(stored);
    let mut count: usize = 0;
    let mut first: usize = v.len();
    let mut i: usize = 0;
    while i < v.len()
        invariant
            i <= v.len(),
            v@ == stored@,
            count == count_char(v@.take(i as int), '$'),
            count <= i,
            count == 0 ==> first == v.len() && forall|j: int| 0 <= j < i ==> #[trigger] v@[j] != '$',
            count > 0 ==> first < i && v@[first as int] == '$' && first_index(v@.take(i as int), '$') == first
                && forall|j: int| 0 <= j < first ==> #[trigger] v@[j] != '$',
        decreases v.len() - i,
    {
        proof {
            assert(v@.take(i + 1).drop_last() =~= v@.take(i as int));
            assert(v@.take(i + 1).last() == v@[i as int]);
        }
        if v[i] == '$' {
            if count == 0 {
                first = i;
                proof {
                    lemma_count_first(v@, '$', i as int);
                }
            }
            count = count + 1;
        }
        i = i + 1;
    }
    assert(v@.take(v.len() as int) =~= v@);
    if count != 1 {
        return Err("Corrupted account data.".to_owned());
    }
    let mut salt_chars: Vec<char> = Vec::new();
    let mut j: usize = 0;
    while j < first
        invariant
            j <= first,
            first < v.len(),
            salt_chars@ == v@.take(j as int),
        decreases first - j,
    {
        salt_chars.push(v[j]);
        assert(v@.take(j + 1) =~= v@.take(j as int).push(v@[j as int]));
        j = j + 1;
    }
    let mut expected_chars: Vec<char> = Vec::new();
    let mut k: usize = first + 1;
    while k < v.len()
        invariant
            first + 1 <= k <= v.len(),
            expected_chars@ == v@.subrange(first + 1, k as int),
        decreases v.len() - k,
    {
        expected_chars.push(v[k]);
        assert(v@.subrange(first + 1, k + 1) =~= v@.subrange(first + 1, k as int).push(v@[k as int]));
        k = k + 1;
    }
    assert(expected_chars@ =~= v@.skip(first + 1));
    let salt = string_from_chars(&salt_chars);
    let expected = string_from_chars(&expected_chars);
    let computed = hash_password(password, salt.as_str());
    if !computed.eq(&expected) {
        return Err("Incorrect password.".to_owned());
    }
    Ok(())
}

/// A fresh record for `password`: a clock-seeded salt for `name`, and the hash
/// of the password with it.
pub fn new_password_record(name: &str, password: &str) -> (r: String)
    ensures
        spec_check_password(r@, password@) == Ok::<(), Seq<char>>(()),
{
    let salt = generate_salt(name);
    let hash = hash_password(password, salt.as_str());
    proof {
        let nanos = choose|nanos: nat| salt@ == spec_salt(name@, nanos);
        lemma_hex_no_dollar(spec_sha256(seed_bytes(name@, nanos, "salt_seed"@)).take(8));
        lemma_hex_no_dollar(spec_sha256(encode_utf8(salt@) + seq![36u8] + encode_utf8(password@)));
        lemma_split_record(salt@, hash@);
    }
    password_record(salt.as_str(), hash.as_str())
}

/// A password recorded with a salt that holds no `$` checks out: an account
/// signs in with the password it was created with.
pub proof fn law_recorded_password_checks(salt: Seq<char>, password: Seq<char>)
    requires
        count_char(salt, '$') == 0,
    ensures
        spec_check_password(
            spec_password_record(salt, spec_hash_password(password, salt)),
            password,
        ) == Ok::<(), Seq<char>>(()),
{
    lemma_hex_no_dollar(spec_sha256(encode_utf8(salt) + seq![36u8] + encode_utf8(password)));
    lemma_split_record(salt, spec_hash_password(password, salt));
}

/// Salts are hexadecimal, so they hold no `$`.
pub proof fn law_salt_has_no_dollar(name: Seq<char>, nanos: nat)
    ensures
        count_char(spec_salt(name, nanos), '$') == 0,
{
    lemma_hex_no_dollar(spec_sha256(seed_bytes(name, nanos, "salt_seed"@)).take(8));
}

/// A role that may approve join requests and promote members.
pub open spec fn spec_is_admin_role(role: Seq<char>) -> bool {
    role == "creator"@ || role == "admin"@
}

pub fn is_admin_role(role: &str) -> (r: bool)
    ensures
        r == spec_is_admin_role(role@),
{
    let r = role.to_owned();
    r.eq(&"creator".to_owned()) || r.eq(&"admin".to_owned())
}

/// Whether `v` holds a string with the characters of `s`.
pub fn contains_string(v: &Vec<String>, s: &String) -> (r: bool)
    ensures
        r == strings_view(v@).contains(s@),
{
    let mut i: usize = 0;
    while i < v.len()
        invariant
            i <= v.len(),
            forall|j: int| 0 <= j < i ==> #[trigger] v@[j]@ != s@,
        decreases v.len() - i,
    {
        if v[i].eq(s) {
            assert(strings_view(v@)[i as int] == s@);
            return true;
        }
        i = i + 1;
    }
    proof {
        if strings_view(v@).contains(s@) {
            let j = choose|j: int| 0 <= j < v@.len() && strings_view(v@)[j] == s@;
            assert(v@[j]@ == s@);
        }
    }
    false
}

/// A membership row, `(room, role)`, as plain values.
pub open spec fn rows_view(rows: Seq<(String, String)>) -> Seq<(Seq<char>, Seq<char>)> {
    rows.map_values(|r: (String, String)| (r.0@, r.1@))
}

/// The groups a user has joined: `general` first, then each room of its
/// membership rows, in order, each once.
pub open spec fn joined_rooms_of(rows: Seq<(Seq<char>, Seq<char>)>) -> Seq<Seq<char>>
    decreases rows.len(),
{
    if rows.len() == 0 {
        seq![default_room()]
    } else {
        let j = joined_rooms_of(rows.drop_last());
        if j.contains(rows.last().0) {
            j
        } else {
            j.push(rows.last().0)
        }
    }
}

/// The groups a user administers: the rooms of its rows whose role is
/// `creator` or `admin`, in order.
pub open spec fn admin_rooms_of(rows: Seq<(Seq<char>, Seq<char>)>) -> Seq<Seq<char>>
    decreases rows.len(),
{
    if rows.len() == 0 {
        Seq::empty()
    } else {
        let a = admin_rooms_of(rows.drop_last());
        if spec_is_admin_role(rows.last().1) {
            a.push(rows.last().0)
        } else {
            a
        }
    }
}

/// Groups a user's rooms: all rooms, the joined ones, those with a pending
/// request, and the administered ones, from its membership rows.
pub fn room_statuses(all_rooms: Vec<String>, memberships: &Vec<(String, String)>, requests: Vec<String>) -> (r: (
    Vec<String>,
    Vec<String>,
    Vec<String>,
    Vec<String>,
))
    ensures
        r.0@ == all_rooms@,
        strings_view(r.1@) == joined_rooms_of(rows_view(memberships@)),
        r.2@ == requests@,
        strings_view(r.3@) == admin_rooms_of(rows_view(memberships@)),
{
    let mut joined: Vec<String> = Vec::new();
    joined.push("general".to_owned());
    let mut admin: Vec<String> = Vec::new();
    assert(strings_view(joined@) =~= joined_rooms_of(rows_view(memberships@).take(0)));
    assert(strings_view(admin@) =~= admin_rooms_of(rows_view(memberships@).take(0)));
    let mut i: usize = 0;
    while i < memberships.len()
        invariant
            i <= memberships.len(),
            strings_view(joined@) == joined_rooms_of(rows_view(memberships@).take(i as int)),
            strings_view(admin@) == admin_rooms_of(rows_view(memberships@).take(i as int)),
        decreases memberships.len() - i,
    {
        let ghost rows = rows_view(memberships@);
        proof {
            assert(rows.take(i + 1).drop_last() =~= rows.take(i as int));
            assert(rows.take(i + 1).last() == rows[i as int]);
        }
        let room = &memberships[i].0;
        let role = &memberships[i].1;
        if !contains_string(&joined, room) {
            joined.push(room.clone());
            assert(strings_view(joined@) =~= joined_rooms_of(rows.take(i + 1)));
        }
        if is_admin_role(role.as_str()) {
            admin.push(room.clone());
            assert(strings_view(admin@) =~= admin_rooms_of(rows.take(i + 1)));
        }
        i = i + 1;
    }
    assert(rows_view(memberships@).take(memberships.len() as int) =~= rows_view(memberships@));
    (all_rooms, joined, requests, admin)
}

/// `general` is always among the joined groups, and no group is listed twice.
pub proof fn law_joined_rooms(rows: Seq<(Seq<char>, Seq<char>)>)
    ensures
        joined_rooms_of(rows).len() > 0,
        joined_rooms_of(rows)[0] == default_room(),
        forall|i: int, j: int|
            0 <= i < joined_rooms_of(rows).len() && 0 <= j < joined_rooms_of(rows).len() && i != j
                ==> #[trigger] joined_rooms_of(rows)[i] != #[trigger] joined_rooms_of(rows)[j],
        forall|i: int| 0 <= i < rows.len() ==> joined_rooms_of(rows).contains(#[trigger] rows[i].0),
    decreases rows.len(),
{
    if rows.len() > 0 {
        let t = rows.drop_last();
        law_joined_rooms(t);
        let j = joined_rooms_of(t);
        assert forall|i: int| 0 <= i < rows.len() implies joined_rooms_of(rows).contains(#[trigger] rows[i].0) by {
            if i < rows.len() - 1 {
                assert(rows[i] == t[i]);
                assert(j.contains(t[i].0));
                let k = choose|k: int| 0 <= k < j.len() && j[k] == t[i].0;
                assert(joined_rooms_of(rows)[k] == t[i].0);
            } else if j.contains(rows.last().0) {
            } else {
                assert(joined_rooms_of(rows)[j.len() as int] == rows.last().0);
            }
        }
    }
}

} // verus!
