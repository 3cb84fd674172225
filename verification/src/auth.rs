//! Authentication and session management.
//!
//! Passwords are stored as `"iterations:salt_hex:hash_hex"`. Sessions are
//! in-memory random tokens issued on successful login and returned as
//! `HttpOnly` cookies. The program around it draws random numbers and computes
//! password hashes.

use crate::text::{
    ascii_bytes, chars_of, decimal, decimal_number, decimal_text, find_char, find_from,
    is_hex_digit, hex_digit_value, law_first_place_is_found, lemma_find_char, lemma_found_char,
    lemma_hex_digit_roundtrip,
    lower_hex_digit, lower_hex_text, parse_decimal, parsed_decimal, push_number, same_text, text_of,
    to_ascii, trim, trimmed, unsigned_part, white_space, without_leading_space,
    without_trailing_space, all_decimal, is_decimal_digit,
};
use vstd::prelude::*;
use vstd::slice::slice_subrange;

verus! {

/// PBKDF2 iteration count: balances brute-force resistance with response time.
pub const PBKDF2_ITERATIONS: u32 = 10_000;

/// Salt length in bytes.
pub const SALT_LEN: usize = 16;

/// Derived key length in bytes.
pub const HASH_LEN: usize = 32;

/// Maximum number of concurrent sessions.
pub const MAX_SESSIONS: usize = 5;

/// Session token length in bytes (128-bit).
pub const TOKEN_LEN: usize = 16;

// ---------------------------------------------------------------------------
// Sessions
// ---------------------------------------------------------------------------

/// In-memory session store, oldest session first.
#[derive(Debug)]
pub struct SessionStore {
    tokens: Vec<[u8; 16]>,
}

impl View for SessionStore {
    type V = Seq<Seq<u8>>;

    closed spec fn view(&self) -> Seq<Seq<u8>> {
        self.tokens@.map_values(|token: [u8; 16]| token@)
    }
}

/// The sessions after a new one: at capacity the oldest one makes room.
pub open spec fn with_session(sessions: Seq<Seq<u8>>, token: Seq<u8>) -> Seq<Seq<u8>> {
    if sessions.len() >= MAX_SESSIONS {
        sessions.drop_first().push(token)
    } else {
        sessions.push(token)
    }
}

/// The sessions without those of a token.
pub open spec fn without_session(sessions: Seq<Seq<u8>>, token: Seq<u8>) -> Seq<Seq<u8>>
    decreases sessions.len(),
{
    if sessions.len() == 0 {
        Seq::empty()
    } else {
        let before = without_session(sessions.drop_last(), token);
        if sessions.last() == token {
            before
        } else {
            before.push(sessions.last())
        }
    }
}

/// Whether two tokens are the same.
fn same_token(a: &[u8; 16], b: &[u8; 16]) -> (r: bool)
    ensures
        r == (a@ == b@),
{
    let mut i: usize = 0;
    while i < 16
        invariant
            i <= 16,
            a@.len() == 16,
            b@.len() == 16,
            forall|j: int| 0 <= j < i ==> a@[j] == b@[j],
        decreases 16 - i,
    {
        if a[i] != b[i] {
            assert(a@[i as int] != b@[i as int]);
            return false;
        }
        i = i + 1;
    }
    assert(a@ =~= b@);
    true
}

impl Default for SessionStore {
    fn default() -> (r: Self)
        ensures
            r@ == Seq::<Seq<u8>>::empty(),
    {
        let store = SessionStore { tokens: Vec::new() };
        assert(store@ =~= Seq::<Seq<u8>>::empty());
        store
    }
}

impl SessionStore {
    /// Insert a new session token. Evicts the oldest if at capacity.
    pub fn insert(&mut self, token: [u8; 16])
        ensures
            final(self)@ == with_session(old(self)@, token@),
    {
        if self.tokens.len() >= MAX_SESSIONS {
            self.tokens.remove(0);
        }
        self.tokens.push(token);
        assert(self@ =~= with_session(old(self)@, token@));
    }

    /// Check whether a token is valid.
    pub fn contains(&self, token: &[u8; 16]) -> (r: bool)
        ensures
            r == self@.contains(token@),
    {
        let mut i: usize = 0;
        while i < self.tokens.len()
            invariant
                i <= self.tokens@.len(),
                forall|j: int| 0 <= j < i ==> (#[trigger] self.tokens@[j])@ != token@,
            decreases self.tokens@.len() - i,
        {
            if same_token(&self.tokens[i], token) {
                assert(self@[i as int] == token@);
                return true;
            }
            i = i + 1;
        }
        assert forall|j: int| 0 <= j < self@.len() implies self@[j] != token@ by {
            assert(self@[j] == self.tokens@[j]@);
        }
        false
    }

    /// Remove a token (logout).
    pub fn remove(&mut self, token: &[u8; 16])
        ensures
            final(self)@ == without_session(old(self)@, token@),
    {
        let mut kept: Vec<[u8; 16]> = Vec::new();
        let mut i: usize = 0;
        let ghost all = self@;
        assert(all.take(0) =~= Seq::empty());
        assert(kept@.map_values(|token: [u8; 16]| token@) =~= Seq::empty());
        while i < self.tokens.len()
            invariant
                i <= self.tokens@.len(),
                all == self.tokens@.map_values(|token: [u8; 16]| token@),
                kept@.map_values(|token: [u8; 16]| token@) == without_session(
                    all.take(i as int),
                    token@,
                ),
            decreases self.tokens@.len() - i,
        {
            let ghost before = kept@.map_values(|token: [u8; 16]| token@);
            assert(all.take(i + 1).drop_last() =~= all.take(i as int));
            assert(all.take(i + 1).last() == self.tokens@[i as int]@);
            let current: [u8; 16] = self.tokens[i];
            if !same_token(&current, token) {
                kept.push(current);
                assert(kept@.map_values(|token: [u8; 16]| token@) =~= before.push(current@));
            }
            i = i + 1;
        }
        assert(all.take(i as int) =~= all);
        self.tokens = kept;
    }

    /// Remove all sessions (e.g. when auth is disabled).
    pub fn clear(&mut self)
        ensures
            final(self)@ == Seq::<Seq<u8>>::empty(),
    {
        self.tokens = Vec::new();
        assert(self@ =~= Seq::<Seq<u8>>::empty());
    }
}

/// A new session is valid, and there are never more than the maximum.
pub proof fn law_new_session_is_valid(sessions: Seq<Seq<u8>>, token: Seq<u8>)
    requires
        sessions.len() <= MAX_SESSIONS,
    ensures
        with_session(sessions, token).contains(token),
        with_session(sessions, token).last() == token,
        with_session(sessions, token).len() <= MAX_SESSIONS,
{
    let after = with_session(sessions, token);
    assert(after[after.len() - 1] == token);
}

/// After a logout the token is no longer valid, and every other session is.
pub proof fn law_logout_ends_one_session(sessions: Seq<Seq<u8>>, token: Seq<u8>, other: Seq<u8>)
    requires
        other != token,
    ensures
        !without_session(sessions, token).contains(token),
        without_session(sessions, token).contains(other) == sessions.contains(other),
        without_session(sessions, token).len() <= sessions.len(),
    decreases sessions.len(),
{
    let after = without_session(sessions, token);
    if sessions.len() == 0 {
    } else {
        let before = without_session(sessions.drop_last(), token);
        law_logout_ends_one_session(sessions.drop_last(), token, other);
        let last = sessions.last();
        if after.contains(token) {
            let i = after.index_of(token);
            if last != token {
                assert(i < before.len());
                assert(before[i] == token);
            }
            assert(before.contains(token));
        }
        if sessions.contains(other) {
            let i = sessions.index_of(other);
            if i < sessions.len() - 1 {
                assert(sessions.drop_last()[i] == other);
                assert(before.contains(other));
                let k = before.index_of(other);
                assert(after[k] == other);
            } else {
                assert(after[before.len() as int] == other);
            }
        }
        if after.contains(other) {
            let k = after.index_of(other);
            if k < before.len() {
                assert(before[k] == other);
                assert(sessions.drop_last().contains(other));
                let i = sessions.drop_last().index_of(other);
                assert(sessions[i] == other);
            } else {
                assert(sessions[sessions.len() - 1] == other);
            }
        }
    }
}

/// Sessions that were issued before are kept until enough newer ones came: one
/// more login drops at most the oldest one.
pub proof fn law_login_keeps_newer_sessions(sessions: Seq<Seq<u8>>, token: Seq<u8>, i: int)
    requires
        0 < i < sessions.len(),
    ensures
        with_session(sessions, token).contains(sessions[i]),
{
    let after = with_session(sessions, token);
    if sessions.len() >= MAX_SESSIONS {
        assert(after[i - 1] == sessions[i]);
    } else {
        assert(after[i] == sessions[i]);
    }
}

// ---------------------------------------------------------------------------
// Hexadecimal text
// ---------------------------------------------------------------------------

/// The character is a hexadecimal digit of either case.
pub open spec fn is_hex_char(c: char) -> bool {
    (c as u32) < 0x80 && is_hex_digit(c as u8)
}

/// The bytes that hexadecimal text stands for: an even number of digits and
/// nothing else.
pub open spec fn hex_decoded(s: Seq<char>) -> Option<Seq<u8>> {
    if s.len() % 2 == 0 && (forall|i: int| 0 <= i < s.len() ==> is_hex_char(#[trigger] s[i])) {
        Some(
            Seq::new(
                s.len() / 2,
                |i: int|
                    (16 * hex_digit_value(s[2 * i] as u8) + hex_digit_value(
                        s[2 * i + 1] as u8,
                    )) as u8,
            ),
        )
    } else {
        None
    }
}

/// `hex::encode`: two lower-case digits for each byte.
#[verifier::external_body]
fn hex_encode(data: &[u8]) -> (r: String)
    ensures
        r@ == lower_hex_text(data@),
{
    hex::encode(data)
}

/// `hex::decode`: the bytes of an even number of digits of either case; an error
/// for anything else.
#[verifier::external_body]
fn hex_decode(s: &str) -> (r: Option<Vec<u8>>)
    ensures
        match r {
            Some(bytes) => hex_decoded(s@) == Some(bytes@),
            None => hex_decoded(s@) is None,
        },
{
    hex::decode(s).ok()
}

proof fn lemma_hex_text(bytes: Seq<u8>)
    ensures
        lower_hex_text(bytes).len() == 2 * bytes.len(),
        forall|i: int|
            0 <= i < bytes.len() ==> lower_hex_text(bytes)[2 * i] == lower_hex_digit(
                (#[trigger] bytes[i] / 16) as nat,
            ) as char && lower_hex_text(bytes)[2 * i + 1] == lower_hex_digit(
                (bytes[i] % 16) as nat,
            ) as char,
    decreases bytes.len(),
{
    if bytes.len() > 0 {
        let front = bytes.drop_last();
        lemma_hex_text(front);
        assert forall|i: int| 0 <= i < bytes.len() implies lower_hex_text(bytes)[2 * i]
            == lower_hex_digit((#[trigger] bytes[i] / 16) as nat) as char && lower_hex_text(
            bytes,
        )[2 * i + 1] == lower_hex_digit((bytes[i] % 16) as nat) as char by {
            if i < front.len() {
                assert(bytes[i] == front[i]);
            }
        }
    }
}

proof fn lemma_hex_text_digits(bytes: Seq<u8>, k: int)
    requires
        0 <= k < lower_hex_text(bytes).len(),
    ensures
        is_hex_char(lower_hex_text(bytes)[k]),
{
    lemma_hex_text(bytes);
    let i = k / 2;
    lemma_hex_digit_roundtrip((bytes[i] / 16) as nat);
    lemma_hex_digit_roundtrip((bytes[i] % 16) as nat);
    if k % 2 == 0 {
        assert(k == 2 * i);
    } else {
        assert(k == 2 * i + 1);
    }
}

/// Bytes read back from their hexadecimal text.
pub proof fn law_hex_reads_back(bytes: Seq<u8>)
    ensures
        hex_decoded(lower_hex_text(bytes)) == Some(bytes),
{
    lemma_hex_text(bytes);
    let text = lower_hex_text(bytes);
    assert forall|k: int| 0 <= k < text.len() implies is_hex_char(#[trigger] text[k]) by {
        lemma_hex_text_digits(bytes, k);
    }
    assert forall|i: int| 0 <= i < bytes.len() implies #[trigger] hex_decoded(text)->0[i]
        == bytes[i] by {
        let b = bytes[i];
        lemma_hex_digit_roundtrip((b / 16) as nat);
        lemma_hex_digit_roundtrip((b % 16) as nat);
        assert(text[2 * i] as u8 == lower_hex_digit((b / 16) as nat));
        assert(text[2 * i + 1] as u8 == lower_hex_digit((b % 16) as nat));
    }
    assert(hex_decoded(text)->0 =~= bytes);
}

// ---------------------------------------------------------------------------
// Passwords
// ---------------------------------------------------------------------------

/// A stored password hash.
#[derive(Debug)]
pub struct StoredPassword {
    pub iterations: u32,
    pub salt: Vec<u8>,
    pub hash: Vec<u8>,
}

/// The text of a password hash.
pub open spec fn password_text(iterations: u32, salt: Seq<u8>, hash: Seq<u8>) -> Seq<char> {
    decimal_text(iterations as nat).push(':') + lower_hex_text(salt).push(':') + lower_hex_text(
        hash,
    )
}

/// A decimal number in a text, if it fits 32 bits.
pub open spec fn number_in(s: Seq<char>) -> Option<u32> {
    match ascii_bytes(s) {
        Some(bytes) => match parsed_decimal(bytes) {
            Some(n) => if n <= u32::MAX {
                Some(n as u32)
            } else {
                None
            },
            None => None,
        },
        None => None,
    }
}

/// What the text of a password hash holds: three parts with colons between
/// them, all of them readable.
pub open spec fn password_in(stored: Seq<char>) -> Option<(u32, Seq<u8>, Seq<u8>)> {
    let first = find_char(stored, ':');
    let rest = stored.skip(first + 1);
    let second = find_char(rest, ':');
    if first >= stored.len() || second >= rest.len() {
        None
    } else {
        match (
            number_in(stored.take(first)),
            hex_decoded(rest.take(second)),
            hex_decoded(rest.skip(second + 1)),
        ) {
            (Some(iterations), Some(salt), Some(hash)) => Some((iterations, salt, hash)),
            _ => None,
        }
    }
}

/// Format a password hash for storage: `"iterations:salt_hex:hash_hex"`.
pub fn format_password_hash(iterations: u32, salt: &[u8], hash: &[u8]) -> (r: String)
    ensures
        r@ == password_text(iterations, salt@, hash@),
{
    let mut out: String = "".to_owned();
    proof {
        reveal_strlit("");
    }
    push_number(&mut out, iterations as u64);
    out.push(':');
    let salt_hex = hex_encode(salt);
    out.push_str(salt_hex.as_str());
    out.push(':');
    let hash_hex = hex_encode(hash);
    out.push_str(hash_hex.as_str());
    assert(out@ =~= password_text(iterations, salt@, hash@));
    out
}

/// Read a stored password hash (`"iterations:salt_hex:hash_hex"`).
pub fn parse_password_hash(stored: &str) -> (r: Option<StoredPassword>)
    ensures
        match r {
            Some(p) => password_in(stored@) == Some((p.iterations, p.salt@, p.hash@)),
            None => password_in(stored@) is None,
        },
{
    let chars: Vec<char> = chars_of(stored);
    let all: &[char] = chars.as_slice();
    let total: usize = all.len();
    let first: usize = find_from(all, 0, ':');
    assert(all@.skip(0) =~= all@);
    if first == total {
        return None;
    }
    let second: usize = find_from(all, first + 1, ':');
    let ghost rest = stored@.skip(first + 1);
    if second == total {
        return None;
    }
    assert(all@.subrange(0, first as int) =~= stored@.take(first as int));
    assert(all@.subrange(first + 1, second as int) =~= rest.take(second - first - 1));
    assert(all@.subrange(second + 1, total as int) =~= rest.skip(second - first));
    let count: Option<u32> = match to_ascii(slice_subrange(all, 0, first)) {
        Some(digits) => match parse_decimal(digits.as_slice(), u32::MAX as u64) {
            Some(n) => Some(n as u32),
            None => None,
        },
        None => None,
    };
    let iterations: u32 = match count {
        Some(n) => n,
        None => {
            return None;
        },
    };
    let salt_text = text_of(slice_subrange(all, first + 1, second));
    let salt: Vec<u8> = match hex_decode(salt_text.as_str()) {
        Some(bytes) => bytes,
        None => {
            return None;
        },
    };
    let hash_text = text_of(slice_subrange(all, second + 1, total));
    let hash: Vec<u8> = match hex_decode(hash_text.as_str()) {
        Some(bytes) => bytes,
        None => {
            return None;
        },
    };
    Some(StoredPassword { iterations, salt, hash })
}

/// Whether a password fits a stored hash. `computed` is the hash of the password
/// with the stored salt and iterations, if it could be computed.
pub fn verify_password(stored: &str, computed: Option<&[u8]>) -> (r: bool)
    ensures
        r == (computed is Some && password_in(stored@) is Some && (password_in(stored@)->0).2
            == computed->0@),
{
    match parse_password_hash(stored) {
        Some(password) => match computed {
            Some(hash) => constant_time_eq(hash, password.hash.as_slice()),
            None => false,
        },
        None => false,
    }
}

/// Constant-time byte comparison.
pub fn constant_time_eq(a: &[u8], b: &[u8]) -> (r: bool)
    ensures
        r == (a@ == b@),
{
    if a.len() != b.len() {
        return false;
    }
    let mut diff: u8 = 0;
    let mut i: usize = 0;
    while i < a.len()
        invariant
            i <= a@.len() == b@.len(),
            diff == 0 <==> (forall|j: int| 0 <= j < i ==> a@[j] == b@[j]),
        decreases a@.len() - i,
    {
        let x: u8 = a[i];
        let y: u8 = b[i];
        let ghost before = diff;
        diff = diff | (x ^ y);
        assert((before | (x ^ y)) == 0 <==> before == 0 && x == y) by (bit_vector);
        i = i + 1;
    }
    assert(diff == 0 ==> a@ =~= b@);
    diff == 0
}

proof fn lemma_decimal_digits(n: nat)
    ensures
        decimal(n).len() > 0,
        all_decimal(decimal(n)),
        decimal_number(decimal(n)) == n,
    decreases n,
{
    if n < 10 {
        let d = decimal(n);
        assert(d.drop_last() =~= Seq::empty());
        assert(decimal_number(d.drop_last()) == 0);
    } else {
        lemma_decimal_digits(n / 10);
        let front = decimal(n / 10);
        let d = decimal(n);
        assert(d.drop_last() =~= front);
        assert forall|i: int| 0 <= i < d.len() implies is_decimal_digit(#[trigger] d[i]) by {
            if i < front.len() {
                assert(d[i] == front[i]);
            }
        }
    }
}

proof fn lemma_number_reads_back(n: u32)
    ensures
        number_in(decimal_text(n as nat)) == Some(n),
        forall|i: int|
            0 <= i < decimal_text(n as nat).len() ==> #[trigger] decimal_text(n as nat)[i] != ':',
{
    let digits = decimal(n as nat);
    let text = decimal_text(n as nat);
    lemma_decimal_digits(n as nat);
    assert forall|i: int| 0 <= i < text.len() implies (#[trigger] text[i] as u32) < 0x80 && text[i]
        as u8 == digits[i] && text[i] != ':' by {
        assert(is_decimal_digit(digits[i]));
    }
    assert(text.map_values(|c: char| c as u8) =~= digits);
    assert(is_decimal_digit(digits[0]));
    assert(unsigned_part(digits) == digits);
}

/// A stored password hash reads back as it was.
pub proof fn law_password_hash_reads_back(iterations: u32, salt: Seq<u8>, hash: Seq<u8>)
    ensures
        password_in(password_text(iterations, salt, hash)) == Some((iterations, salt, hash)),
{
    let number = decimal_text(iterations as nat);
    let salt_hex = lower_hex_text(salt);
    let hash_hex = lower_hex_text(hash);
    let stored = password_text(iterations, salt, hash);
    lemma_number_reads_back(iterations);
    law_hex_reads_back(salt);
    law_hex_reads_back(hash);
    let first = number.len() as int;
    assert forall|j: int| 0 <= j < first implies stored[j] != ':' by {
        assert(stored[j] == number[j]);
    }
    lemma_found_char(stored, ':', first);
    let rest = stored.skip(first + 1);
    assert(rest =~= salt_hex.push(':') + hash_hex);
    let second = salt_hex.len() as int;
    assert forall|j: int| 0 <= j < second implies rest[j] != ':' by {
        lemma_hex_text_digits(salt, j);
    }
    lemma_found_char(rest, ':', second);
    assert(stored.take(first) =~= number);
    assert(rest.take(second) =~= salt_hex);
    assert(rest.skip(second + 1) =~= hash_hex);
}

// ---------------------------------------------------------------------------
// Cookies
// ---------------------------------------------------------------------------

/// The name and the value in one piece of a `Cookie` header: what stands before
/// and behind the first equals sign, without the white space around it. The
/// name must not be empty.
pub open spec fn cookie_pair(piece: Seq<char>) -> Option<(Seq<char>, Seq<char>)> {
    let at = find_char(piece, '=');
    if at >= piece.len() || trimmed(piece.take(at)).len() == 0 {
        None
    } else {
        Some((trimmed(piece.take(at)), trimmed(piece.skip(at + 1))))
    }
}

/// `cookie::Cookie::parse`, and the name and value of the cookie, on a piece of
/// a header without attributes (that is, without a semicolon): the name and the
/// value on the two sides of the first equals sign, or an error.
#[verifier::external_body]
fn parse_cookie(piece: &str) -> (r: Option<(String, String)>)
    requires
        !piece@.contains(';'),
    ensures
        match r {
            Some((name, value)) => cookie_pair(piece@) == Some((name@, value@)),
            None => cookie_pair(piece@) is None,
        },
{
    let c = cookie::Cookie::parse(piece).ok()?;
    Some((c.name().to_owned(), c.value().to_owned()))
}

/// The session token in one piece of a `Cookie` header.
pub open spec fn token_in_piece(piece: Seq<char>) -> Option<Seq<u8>> {
    match cookie_pair(trimmed(piece)) {
        Some((name, value)) => if name == "session"@ && hex_decoded(value) is Some && hex_decoded(
            value,
        )->0.len() == TOKEN_LEN {
            hex_decoded(value)
        } else {
            None
        },
        None => None,
    }
}

/// The session token in a `Cookie` header: that of the first piece with one.
pub open spec fn token_in(header: Seq<char>) -> Option<Seq<u8>>
    decreases header.len(),
{
    let at = find_char(header, ';');
    if at < 0 || at >= header.len() {
        token_in_piece(header)
    } else {
        match token_in_piece(header.take(at)) {
            Some(token) => Some(token),
            None => token_in(header.skip(at + 1)),
        }
    }
}

proof fn lemma_trimmed_within(s: Seq<char>, c: char)
    requires
        !s.contains(c),
    ensures
        !trimmed(s).contains(c),
{
    lemma_leading_within(s, c);
    lemma_trailing_within(without_leading_space(s), c);
}

proof fn lemma_leading_within(s: Seq<char>, c: char)
    requires
        !s.contains(c),
    ensures
        !without_leading_space(s).contains(c),
    decreases s.len(),
{
    if s.len() > 0 && white_space(s[0]) {
        assert forall|i: int| 0 <= i < s.drop_first().len() implies s.drop_first()[i] != c by {
            assert(s.contains(s[i + 1]));
        }
        lemma_leading_within(s.drop_first(), c);
    }
}

proof fn lemma_trailing_within(s: Seq<char>, c: char)
    requires
        !s.contains(c),
    ensures
        !without_trailing_space(s).contains(c),
    decreases s.len(),
{
    if s.len() > 0 && white_space(s.last()) {
        assert forall|i: int| 0 <= i < s.drop_last().len() implies s.drop_last()[i] != c by {
            assert(s.contains(s[i]));
        }
        lemma_trailing_within(s.drop_last(), c);
    }
}

/// The session token in one piece of a `Cookie` header.
fn piece_token(piece: &[char]) -> (r: Option<[u8; 16]>)
    requires
        !piece@.contains(';'),
    ensures
        match r {
            Some(token) => token_in_piece(piece@) == Some(token@),
            None => token_in_piece(piece@) is None,
        },
{
    proof {
        lemma_trimmed_within(piece@, ';');
    }
    let trimmed_piece: Vec<char> = trim(piece);
    let text: String = text_of(trimmed_piece.as_slice());
    match parse_cookie(text.as_str()) {
        Some((name, value)) => if same_text(name.as_str(), "session") {
            match hex_decode(value.as_str()) {
                Some(bytes) => if bytes.len() == TOKEN_LEN {
                    let mut token: [u8; 16] = [0u8; 16];
                    let mut i: usize = 0;
                    while i < 16
                        invariant
                            i <= 16,
                            bytes@.len() == 16,
                            token@.len() == 16,
                            forall|j: int| 0 <= j < i ==> token@[j] == bytes@[j],
                        decreases 16 - i,
                    {
                        token[i] = bytes[i];
                        i = i + 1;
                    }
                    assert(token@ =~= bytes@);
                    Some(token)
                } else {
                    None
                },
                None => None,
            }
        } else {
            None
        },
        None => None,
    }
}

/// Extract a session token from the `Cookie` header.
///
/// Looks for the `session` cookie containing a hex-encoded token.
pub fn extract_session_token(cookie_header: &str) -> (r: Option<[u8; 16]>)
    ensures
        match r {
            Some(token) => token_in(cookie_header@) == Some(token@),
            None => token_in(cookie_header@) is None,
        },
{
    let chars: Vec<char> = chars_of(cookie_header);
    let all: &[char] = chars.as_slice();
    let total: usize = all.len();
    let mut from: usize = 0;
    assert(all@.skip(0) =~= all@);
    loop
        invariant
            from <= total,
            total == all@.len(),
            all@ == cookie_header@,
            token_in(all@.skip(from as int)) == token_in(cookie_header@),
        decreases total - from,
    {
        let end: usize = find_from(all, from, ';');
        let ghost rest = all@.skip(from as int);
        let ghost at = end - from;
        let piece: &[char] = slice_subrange(all, from, end);
        proof {
            lemma_find_char(rest, ';');
            assert(piece@ =~= rest.take(at));
            assert(end == total ==> rest.take(at) =~= rest);
            assert forall|j: int| 0 <= j < piece@.len() implies piece@[j] != ';' by {
                assert(piece@[j] == rest[j]);
            }
        }
        match piece_token(piece) {
            Some(token) => {
                return Some(token);
            },
            None => {},
        }
        if end == total {
            return None;
        }
        assert(rest.skip(at + 1) =~= all@.skip(end + 1));
        from = end + 1;
    }
}

/// On which requests from other sites a cookie is sent.
#[derive(Debug, Clone, Copy, PartialEq, Eq, Structural)]
pub enum SameSite {
    /// On none
    Strict,
    /// When a link is followed
    Lax,
    /// On all, over a secure connection
    Any,
}

/// The `SameSite` attribute; a cookie for all requests is also marked `Secure`.
pub open spec fn same_site_text(same_site: SameSite) -> Seq<char> {
    match same_site {
        SameSite::Strict => "; SameSite=Strict"@,
        SameSite::Lax => "; SameSite=Lax"@,
        SameSite::Any => "; SameSite=None; Secure"@,
    }
}

/// A `Set-Cookie` header value: name and value, then the attributes in a fixed
/// order.
pub open spec fn set_cookie_text(
    name: Seq<char>,
    value: Seq<char>,
    http_only: bool,
    same_site: SameSite,
    path: Seq<char>,
    max_age: Option<u32>,
) -> Seq<char> {
    name + "="@ + value + (if http_only {
        "; HttpOnly"@
    } else {
        Seq::empty()
    }) + same_site_text(same_site) + "; Path="@ + path + match max_age {
        Some(seconds) => "; Max-Age="@ + decimal_text(seconds as nat),
        None => Seq::empty(),
    }
}

/// `cookie::Cookie` as a `Set-Cookie` header value: made with `new`, given its
/// attributes by `set_http_only`, `set_same_site`, `set_path` and `set_max_age`,
/// and written by `to_string`, which puts name and value first and the
/// attributes in a fixed order behind them. Without a `Secure` attribute of its
/// own, a cookie for all sites gets one.
#[verifier::external_body]
fn set_cookie(
    name: &str,
    value: &str,
    http_only: bool,
    same_site: SameSite,
    path: &str,
    max_age: Option<u32>,
) -> (r: String)
    ensures
        r@ == set_cookie_text(name@, value@, http_only, same_site, path@, max_age),
{
    let mut c = cookie::Cookie::new(name, value);
    c.set_http_only(http_only);
    c.set_same_site(match same_site {
        SameSite::Strict => cookie::SameSite::Strict,
        SameSite::Lax => cookie::SameSite::Lax,
        SameSite::Any => cookie::SameSite::None,
    });
    c.set_path(path);
    c.set_max_age(max_age.map(|s| cookie::time::Duration::seconds(i64::from(s))));
    c.to_string()
}

/// The `Set-Cookie` header value for the session cookie, which scripts cannot
/// read and other sites do not get.
pub open spec fn session_cookie_text(value: Seq<char>, max_age: Option<u32>) -> Seq<char> {
    set_cookie_text("session"@, value, true, SameSite::Strict, "/"@, max_age)
}

/// Build a `Set-Cookie` header value for a session token.
pub fn session_cookie(token: &[u8; 16]) -> (r: String)
    ensures
        r@ == session_cookie_text(lower_hex_text(token@), None),
{
    let value = hex_encode(token.as_slice());
    set_cookie("session", value.as_str(), true, SameSite::Strict, "/", None)
}

/// Build a `Set-Cookie` header value that clears the session cookie.
pub fn clear_session_cookie() -> (r: String)
    ensures
        r@ == session_cookie_text(""@, Some(0)),
{
    set_cookie("session", "", true, SameSite::Strict, "/", Some(0))
}

/// A text that neither starts nor ends with white space stays as it is.
proof fn lemma_nothing_to_trim(s: Seq<char>)
    requires
        s.len() > 0 ==> !white_space(s[0]) && !white_space(s.last()),
    ensures
        trimmed(s) == s,
{
}

proof fn lemma_hex_char_is_no_space(c: char)
    requires
        is_hex_char(c),
    ensures
        !white_space(c),
{
    assert(c as u8 == c as u32);
}

/// The cookie that a client sends back carries the token: a `session` cookie
/// with the token's value, whatever follows behind a semicolon.
pub proof fn law_cookie_carries_token(token: Seq<u8>, rest: Seq<char>)
    requires
        token.len() == TOKEN_LEN,
    ensures
        token_in("session="@ + lower_hex_text(token)) == Some(token),
        token_in("session="@ + lower_hex_text(token) + ";"@ + rest) == Some(token),
{
    reveal_strlit("session=");
    reveal_strlit("session");
    reveal_strlit(";");
    let value = lower_hex_text(token);
    let name = "session"@;
    let piece = "session="@ + value;
    lemma_hex_text(token);
    law_hex_reads_back(token);
    assert forall|k: int| 0 <= k < value.len() implies is_hex_char(#[trigger] value[k]) by {
        lemma_hex_text_digits(token, k);
    }
    assert(piece[0] == 's');
    assert(piece.last() == value[value.len() - 1]);
    assert(is_hex_char(value[value.len() - 1]));
    lemma_nothing_to_trim(piece);
    assert forall|j: int| 0 <= j < 7 implies piece[j] != '=' by {
        assert(piece[j] == "session="@[j]);
    }
    lemma_found_char(piece, '=', 7);
    assert(piece.take(7) =~= name);
    assert(piece.skip(8) =~= value);
    lemma_nothing_to_trim(name);
    lemma_hex_char_is_no_space(value[0]);
    lemma_hex_char_is_no_space(value[value.len() - 1]);
    lemma_nothing_to_trim(value);
    assert forall|j: int| 0 <= j < piece.len() implies piece[j] != ';' by {
        if j < 8 {
            assert(piece[j] == "session="@[j]);
        } else {
            assert(is_hex_char(value[j - 8]));
        }
    }
    lemma_found_char(piece, ';', piece.len() as int);
    let header = piece + ";"@ + rest;
    assert forall|j: int| 0 <= j < piece.len() implies header[j] != ';' by {
        assert(header[j] == piece[j]);
    }
    lemma_found_char(header, ';', piece.len() as int);
    assert(header.take(piece.len() as int) =~= piece);
}

/// Up to five sessions are held: below that a login ends none, and at that it ends
/// exactly the oldest one; the others keep their order.
pub proof fn law_five_sessions_are_held(sessions: Seq<Seq<u8>>, token: Seq<u8>)
    ensures
        sessions.len() < 5 ==> with_session(sessions, token) == sessions.push(token),
        sessions.len() >= 5 ==> with_session(sessions, token).len() == sessions.len() && forall|
            i: int,
        |
            0 <= i < sessions.len() - 1 ==> #[trigger] with_session(sessions, token)[i] == sessions[i
                + 1],
        sessions.len() >= 5 ==> with_session(sessions, token).last() == token,
{
}

/// The session cookie is set for the whole site, hidden from scripts and from other
/// sites, and cleared by an empty value that expires at once.
pub proof fn law_session_cookie(token: Seq<u8>)
    ensures
        session_cookie_text(lower_hex_text(token), None) == "session="@ + lower_hex_text(token)
            + "; HttpOnly; SameSite=Strict; Path=/"@,
        session_cookie_text(""@, Some(0))
            == "session=; HttpOnly; SameSite=Strict; Path=/; Max-Age=0"@,
{
    reveal_strlit("session");
    reveal_strlit("=");
    reveal_strlit("");
    reveal_strlit("session=");
    reveal_strlit("; HttpOnly");
    reveal_strlit("; SameSite=Strict");
    reveal_strlit("; Path=");
    reveal_strlit("/");
    reveal_strlit("; Max-Age=");
    reveal_strlit("; HttpOnly; SameSite=Strict; Path=/");
    reveal_strlit("session=; HttpOnly; SameSite=Strict; Path=/; Max-Age=0");
    assert(session_cookie_text(lower_hex_text(token), None) =~= "session="@ + lower_hex_text(token)
        + "; HttpOnly; SameSite=Strict; Path=/"@);
    assert(decimal_text(0) =~= seq!['0']) by {
        assert(decimal(0) =~= seq![0x30u8]);
    }
    assert(session_cookie_text(""@, Some(0))
        =~= "session=; HttpOnly; SameSite=Strict; Path=/; Max-Age=0"@);
}

/// A stored password is refused unless it has two colons.
pub proof fn law_password_has_three_parts(stored: Seq<char>)
    requires
        forall|i: int, j: int|
            0 <= i < j < stored.len() && (#[trigger] stored[i]) == ':' ==> (#[trigger] stored[j])
                != ':',
    ensures
        password_in(stored) is None,
{
    lemma_find_char(stored, ':');
    let first = find_char(stored, ':');
    let rest = stored.skip(first + 1);
    lemma_find_char(rest, ':');
    let second = find_char(rest, ':');
    if first < stored.len() && second < rest.len() {
        assert(rest[second] == stored[first + 1 + second]);
    }
}

/// Only a cookie of the name `session` carries a token, of 16 bytes.
pub proof fn law_only_session_cookies_count(piece: Seq<char>)
    ensures
        token_in_piece(piece) matches Some(token) ==> {
            &&& token.len() == 16
            &&& cookie_pair(trimmed(piece)) is Some
            &&& (cookie_pair(trimmed(piece))->0).0 =~= seq!['s', 'e', 's', 's', 'i', 'o', 'n']
            &&& hex_decoded((cookie_pair(trimmed(piece))->0).1) == Some(token)
        },
{
    reveal_strlit("session");
}

/// A cookie is a name and a value around the first `=`; without one, or without a name,
/// there is no cookie.
pub proof fn law_cookies_have_a_name(name: Seq<char>, value: Seq<char>)
    requires
        !name.contains('='),
    ensures
        cookie_pair(name) is None,
        trimmed(name).len() > 0 ==> cookie_pair(name + seq!['='] + value) == Some(
            (trimmed(name), trimmed(value)),
        ),
        trimmed(name).len() == 0 ==> cookie_pair(name + seq!['='] + value) is None,
{
    law_first_place_is_found(name, '=', value);
    let piece = name + seq!['='] + value;
    assert(piece.take(name.len() as int) =~= name);
    assert(piece.skip(name.len() as int + 1) =~= value);
}

/// A cookie is set with its name and value in front; a cookie for other sites goes over
/// secure connections only.
pub proof fn law_cookies_are_set(
    name: Seq<char>,
    value: Seq<char>,
    http_only: bool,
    same_site: SameSite,
    path: Seq<char>,
)
    ensures
        (name + seq!['='] + value).is_prefix_of(
            set_cookie_text(name, value, http_only, same_site, path, None),
        ),
        path.is_suffix_of(set_cookie_text(name, value, http_only, same_site, path, None)),
        same_site_text(SameSite::Any).skip(15) =~= seq![';', ' ', 'S', 'e', 'c', 'u', 'r', 'e'],
        same_site_text(SameSite::Strict).skip(11) =~= seq!['S', 't', 'r', 'i', 'c', 't'],
        same_site_text(SameSite::Lax).skip(11) =~= seq!['L', 'a', 'x'],
        same_site_text(same_site).take(11) =~= seq![';', ' ', 'S', 'a', 'm', 'e'] + seq![
            'S',
            'i',
            't',
            'e',
            '=',
        ],
{
    reveal_strlit("=");
    reveal_strlit("; SameSite=Strict");
    reveal_strlit("; SameSite=Lax");
    reveal_strlit("; SameSite=None; Secure");
    let text = set_cookie_text(name, value, http_only, same_site, path, None);
    let head = name + seq!['='] + value;
    assert("="@ =~= seq!['=']);
    assert(text.subrange(0, head.len() as int) =~= head);
    assert(text.subrange(text.len() - path.len(), text.len() as int) =~= path);
}

/// A lifetime stands at the end, in seconds.
pub proof fn law_cookies_have_a_lifetime(
    name: Seq<char>,
    value: Seq<char>,
    http_only: bool,
    same_site: SameSite,
    path: Seq<char>,
    seconds: u32,
)
    ensures
        set_cookie_text(name, value, http_only, same_site, path, Some(seconds))
            =~= set_cookie_text(name, value, http_only, same_site, path, None) + "; Max-Age="@
            + decimal_text(seconds as nat),
{
}

} // verus!
