//! Authentication and user-management rules: password hashing through
//! argon2, input validation, the local-login / AD-bind decisions, the
//! restore-request state and the last-administrator guards.

use vstd::prelude::*;
use argon2::password_hash::rand_core::OsRng;
use argon2::password_hash::{PasswordHash, PasswordHasher, PasswordVerifier, SaltString};
use crate::error::AppError;
use crate::text::{all_digits, chars_of, decimal, digits_value, has_prefix, is_digit, is_blank, blank, push_all, signed_decimal, signed_decimal_chars};

verus! {

// ---------------------------------------------------------------------------
// argon2
// ---------------------------------------------------------------------------

/// Whether `password` matches the PHC-formatted argon2 `hash`
/// (`Argon2::default().verify_password` after `PasswordHash::new`); `false`
/// when the hash does not parse.
pub uninterp spec fn argon2_verifies(password: Seq<char>, hash: Seq<char>) -> bool;

/// Costs that `argon2::Params::new` accepts: 1 to 2^24 - 1 lanes, at
/// least one pass, and at least 8 KiB of memory per lane.
pub open spec fn argon2_costs_ok(m_cost: u32, t_cost: u32, p_cost: u32) -> bool {
    &&& 1 <= p_cost <= 0xFFFFFF
    &&& t_cost >= 1
    &&& m_cost >= 8 * p_cost
}

/// A character of the standard base64 alphabet.
pub open spec fn is_b64_char(c: char) -> bool {
    ('a' <= c && c <= 'z') || ('A' <= c && c <= 'Z') || ('0' <= c && c <= '9') || c == '+' || c == '/'
}

/// A salt that `SaltString::from_b64` accepts and that decodes to whole
/// bytes, at least the 8 that argon2 needs: 12 to 64 characters of the
/// standard base64 alphabet, a multiple of 4 long.
pub open spec fn argon2_salt_ok(salt: Seq<char>) -> bool {
    &&& 12 <= salt.len() <= 64
    &&& salt.len() % 4 == 0
    &&& forall|i: int| 0 <= i < salt.len() ==> is_b64_char(#[trigger] salt[i])
}

/// A password short enough for argon2 (its UTF-8 bytes, at most four per
/// character, stay under argon2's 2^32 - 1 byte limit).
pub open spec fn argon2_password_ok(password: Seq<char>) -> bool {
    password.len() < 0x40000000
}

/// From `start` on, `h` holds only base64 characters and `$` separators:
/// the salt and the digest of a PHC string, which are written in unpadded
/// base64.
pub open spec fn b64_tail(h: Seq<char>, start: int) -> bool {
    forall|i: int| start <= i < h.len() ==> is_b64_char(#[trigger] h[i]) || h[i] == '$'
}

/// Calls `argon2::Params::new(m_cost, t_cost, p_cost, None)`,
/// `Argon2::new(Argon2id, V0x13, params)` and
/// `PasswordHasher::hash_password` with a fresh `SaltString::generate(&mut OsRng)`.
/// `Params::new` multiplies `p_cost * 8` in `u32` before it checks the lane
/// limit, so larger lane counts are left out (they overflow). With costs it
/// accepts and a password under its byte limit, hashing succeeds (the
/// random salt is always 16 valid bytes). The salt is random, so the string
/// is not fixed; it starts with the algorithm, version and costs (the source
/// writes `$argon2id$v=19$m=..,t=..,p=..$` before the salt), and it verifies
/// against the same password, as `PasswordVerifier::verify_password`
/// recomputes the hash with the parameters and salt the string holds. After
/// that prefix come the generated salt, `$` and the digest, both in unpadded
/// base64 (`PasswordHash`'s `Display`). The
/// memory the costs ask for is allocated; running out of it is a limit of
/// the machine, not stated here.
#[verifier::external_body]
fn argon2id_hash(password: &str, m_cost: u32, t_cost: u32, p_cost: u32) -> (r: Result<String, String>)
    requires
        p_cost <= 0xFFFFFF,
    ensures
        argon2_costs_ok(m_cost, t_cost, p_cost) && argon2_password_ok(password@) ==> r is Ok,
        r matches Ok(h) ==> argon2_verifies(password@, h@) && has_prefix(h@, argon2id_phc_prefix(m_cost, t_cost, p_cost))
            && b64_tail(h@, argon2id_phc_prefix(m_cost, t_cost, p_cost).len() as int),
{
    let params = argon2::Params::new(m_cost, t_cost, p_cost, None).map_err(|e| e.to_string())?;
    let hasher = argon2::Argon2::new(argon2::Algorithm::Argon2id, argon2::Version::V0x13, params);
    let salt = SaltString::generate(&mut OsRng);
    hasher.hash_password(password.as_bytes(), &salt).map(|h| h.to_string()).map_err(|e| e.to_string())
}

/// A stored hash whose `p` (lanes) value would overflow argon2's
/// `p_cost * 8`: somewhere `p=` is followed by ten or more digits, or by
/// nine digits worth at least 2^29. (A PHC decimal is digits only, so every
/// lane count that overflows shows this way; other texts may be caught too.)
pub open spec fn phc_lanes_overflow(hash: Seq<char>) -> bool {
    exists|i: int| #[trigger] lanes_overflow_at(hash, i)
}

/// `p=` at `i` followed by a lane count that overflows, as above.
pub open spec fn lanes_overflow_at(hash: Seq<char>, i: int) -> bool {
    &&& 0 <= i
    &&& i + 11 <= hash.len()
    &&& hash[i] == 'p'
    &&& hash[i + 1] == '='
    &&& all_digits(hash.subrange(i + 2, i + 11))
    &&& (digits_value(hash.subrange(i + 2, i + 11)) >= 0x20000000
        || (i + 12 <= hash.len() && is_digit(hash[i + 11])))
}

/// Calls `argon2::PasswordHash::new(hash)` and then
/// `Argon2::default().verify_password(password bytes, &parsed).is_ok()`;
/// a hash that does not parse gives `false`. The result is the named
/// `argon2_verifies` of the two arguments. `PasswordHash::new` refuses an
/// empty string and one that does not start with `$`. Hashes whose lane
/// count overflows inside `Params::new` are left out.
#[verifier::external_body]
fn argon2_verify(password: &str, hash: &str) -> (b: bool)
    requires
        !phc_lanes_overflow(hash@),
    ensures
        b == argon2_verifies(password@, hash@),
        hash@.len() == 0 || hash@[0] != '$' ==> !b,
{
    match PasswordHash::new(hash) {
        Ok(parsed) => argon2::Argon2::default().verify_password(password.as_bytes(), &parsed).is_ok(),
        Err(_) => false,
    }
}

/// Calls the hasher of `argon2id_hash` with the given base64 salt
/// (`SaltString::from_b64(salt)`) in place of a random one; lane counts
/// that overflow `Params::new` are left out. The result depends on the
/// arguments alone: with costs `Params::new` accepts, a salt it takes as
/// given (`argon2_salt_ok`) and a password under the byte limit, a string is
/// returned. A string it gives starts with the costs' prefix followed by
/// the salt and `$`, and verifies against the password.
#[verifier::external_body]
fn argon2id_hash_with_salt(password: &str, salt: &str, m_cost: u32, t_cost: u32, p_cost: u32) -> (r: Option<String>)
    requires
        p_cost <= 0xFFFFFF,
    ensures
        argon2_costs_ok(m_cost, t_cost, p_cost) && argon2_salt_ok(salt@) && argon2_password_ok(password@) ==> r is Some,
        r matches Some(h) ==> argon2_verifies(password@, h@)
            && has_prefix(h@, argon2id_phc_prefix(m_cost, t_cost, p_cost) + salt@ + "$"@),
{
    let params = argon2::Params::new(m_cost, t_cost, p_cost, None).ok()?;
    let hasher = argon2::Argon2::new(argon2::Algorithm::Argon2id, argon2::Version::V0x13, params);
    let salt = SaltString::from_b64(salt).ok()?;
    hasher.hash_password(password.as_bytes(), &salt).ok().map(|h| h.to_string())
}

/// The PHC prefix of an argon2id (version 19) hash with these costs.
pub open spec fn argon2id_phc_prefix(m_cost: u32, t_cost: u32, p_cost: u32) -> Seq<char> {
    "$argon2id$v=19$m="@ + decimal(m_cost as nat) + ",t="@ + decimal(t_cost as nat) + ",p="@
        + decimal(p_cost as nat) + "$"@
}

/// Memory cost of the password hashes, in KiB.
pub const ARGON2_M_COST: u32 = 19456;
/// Iterations of the password hashes.
pub const ARGON2_T_COST: u32 = 2;
/// Lanes of the password hashes.
pub const ARGON2_P_COST: u32 = 1;
/// Salt of the dummy hash an unknown login is checked against.
pub const DUMMY_SALT: &'static str = "c29tZWZpeGVkc2FsdDEy";
/// Password of the dummy hash.
pub const DUMMY_PASSWORD: &'static str = "trackly-dummy-password";

/// The prefix every password hash of the library starts with.
pub open spec fn password_hash_prefix() -> Seq<char> {
    "$argon2id$v=19$m=19456,t=2,p=1$"@
}

proof fn lemma_password_hash_prefix()
    ensures
        argon2id_phc_prefix(ARGON2_M_COST, ARGON2_T_COST, ARGON2_P_COST) == password_hash_prefix(),
{
    reveal_strlit("$argon2id$v=19$m=19456,t=2,p=1$");
    reveal_strlit("$argon2id$v=19$m=");
    reveal_strlit(",t=");
    reveal_strlit(",p=");
    reveal_strlit("$");
    assert(decimal(1) =~= seq!['1']);
    assert(decimal(2) =~= seq!['2']);
    assert(decimal(19) =~= seq!['1', '9']);
    assert(decimal(194) =~= seq!['1', '9', '4']);
    assert(decimal(1945) =~= seq!['1', '9', '4', '5']);
    assert(decimal(19456) =~= seq!['1', '9', '4', '5', '6']);
    assert(argon2id_phc_prefix(ARGON2_M_COST, ARGON2_T_COST, ARGON2_P_COST) =~= password_hash_prefix());
}

/// A hash that `hash_password` can give for `password`: it verifies against
/// the password, starts with the library's costs and holds only base64 and
/// `$` after them.
pub open spec fn password_hash_of(password: Seq<char>, h: Seq<char>) -> bool {
    &&& argon2_verifies(password, h)
    &&& has_prefix(h, password_hash_prefix())
    &&& b64_tail(h, password_hash_prefix().len() as int)
}

/// Hashes `password` with argon2id (m = 19456 KiB, t = 2, p = 1, random
/// salt) and returns the PHC string. The string starts with those
/// parameters and verifies against the same password; a failure of the
/// hasher is an `Internal` error.
pub fn hash_password(password: &str) -> (r: Result<String, AppError>)
    ensures
        argon2_password_ok(password@) ==> r is Ok,
        r matches Ok(h) ==> password_hash_of(password@, h@),
        r matches Err(e) ==> (e matches AppError::Internal { source_chain }
            && source_chain@.subrange(0, 13) == "argon2 hash: "@),
{
    let r = argon2id_hash(password, ARGON2_M_COST, ARGON2_T_COST, ARGON2_P_COST);
    match r {
        Ok(h) => {
            proof {
                lemma_password_hash_prefix();
            }
            Ok(h)
        },
        Err(msg) => {
            let mut chain = String::new();
            chain.append("argon2 hash: ");
            let ghost prefix = chain@;
            chain.append(msg.as_str());
            proof {
                reveal_strlit("argon2 hash: ");
                assert(chain@.subrange(0, 13) =~= prefix);
            }
            Err(AppError::Internal { source_chain: chain })
        }
    }
}

/// `true` when `password` matches the argon2 PHC `hash`. A hash whose lane
/// count would overflow the argon2 parameter check is refused without
/// hashing; a string that is not a PHC hash never matches.
pub fn verify_password(password: &str, hash: &str) -> (b: bool)
    ensures
        b == (!phc_lanes_overflow(hash@) && argon2_verifies(password@, hash@)),
        hash@.len() == 0 || hash@[0] != '$' ==> !b,
{
    if !phc_lanes_fit(hash) {
        return false;
    }
    argon2_verify(password, hash)
}

/// A hash made by `hash_password` verifies against the password it was
/// made from: its lane count fits, and argon2 accepts it, so
/// `verify_password` returns `true` for the pair.
pub proof fn hashed_password_verifies(password: Seq<char>, h: Seq<char>)
    requires
        password_hash_of(password, h),
    ensures
        !phc_lanes_overflow(h) && argon2_verifies(password, h),
{
    let pre = password_hash_prefix();
    reveal_strlit("$argon2id$v=19$m=19456,t=2,p=1$");
    assert(pre.len() == 31);
    assert forall|i: int| !#[trigger] lanes_overflow_at(h, i) by {
        if lanes_overflow_at(h, i) {
            if i + 1 >= 31 {
                assert(is_b64_char(h[i + 1]) || h[i + 1] == '$');
            } else {
                assert(h[i] == h.subrange(0, 31)[i]);
                assert(h[i + 1] == h.subrange(0, 31)[i + 1]);
                if i == 27 {
                    assert(h[30] == h.subrange(0, 31)[30]);
                    assert(h.subrange(i + 2, i + 11)[1] == h[30]);
                } else {
                    assert(pre[i] != 'p' || pre[i + 1] != '=');
                }
            }
        }
    }
}

/// Whether no lane count in `hash` overflows, as `phc_lanes_overflow` reads it.
fn phc_lanes_fit(hash: &str) -> (b: bool)
    ensures
        b == !phc_lanes_overflow(hash@),
{
    let cs = chars_of(hash);
    let n = cs.len();
    if n < 11 {
        return true;
    }
    let mut i: usize = 0;
    while i <= n - 11
        invariant
            cs@ == hash@,
            n == cs@.len(),
            n >= 11,
            i <= n - 10,
            forall|j: int| 0 <= j < i ==> !#[trigger] lanes_overflow_at(hash@, j),
        decreases n - i,
    {
        if cs[i] == 'p' && cs[i + 1] == '=' {
            let mut k: usize = 0;
            let mut v: u64 = 0;
            let mut digits = true;
            while k < 9
                invariant
                    cs@ == hash@,
                    n == cs@.len(),
                    i + 11 <= n,
                    k <= 9,
                    digits == all_digits(hash@.subrange(i + 2, i + 2 + k)),
                    digits ==> v == digits_value(hash@.subrange(i + 2, i + 2 + k)),
                    v < 1000000000,
                    digits ==> v < pow10(k as nat),
                decreases 9 - k,
            {
                let c = cs[i + 2 + k];
                let sub = Ghost(hash@.subrange(i + 2, i + 2 + k + 1));
                assert(sub@.drop_last() =~= hash@.subrange(i + 2, i + 2 + k));
                assert(sub@.last() == c);
                if digits && '0' <= c && c <= '9' {
                    proof {
                        assert forall|q: int| 0 <= q < sub@.len() implies is_digit(#[trigger] sub@[q]) by {
                            if q < k {
                                assert(sub@[q] == sub@.drop_last()[q]);
                            }
                        }
                        lemma_pow10_step(k as nat);
                    }
                    v = v * 10 + ((c as u32) - ('0' as u32)) as u64;
                } else {
                    proof {
                        if digits {
                            assert(!is_digit(sub@[k as int]));
                        } else {
                            assert(!all_digits(sub@.drop_last()));
                            let q = choose|q: int| 0 <= q < k && !is_digit(#[trigger] hash@.subrange(i + 2, i + 2 + k)[q]);
                            assert(sub@[q] == sub@.drop_last()[q]);
                        }
                    }
                    digits = false;
                    v = 0;
                }
                k = k + 1;
            }
            let more = i + 11 < n && '0' <= cs[i + 11] && cs[i + 11] <= '9';
            if digits && (v >= 0x20000000 || more) {
                assert(lanes_overflow_at(hash@, i as int));
                return false;
            }
        }
        i = i + 1;
    }
    proof {
        assert forall|j: int| !#[trigger] lanes_overflow_at(hash@, j) by {
            if 0 <= j < i {
            }
        }
    }
    true
}

/// Ten to the power `k`.
pub open spec fn pow10(k: nat) -> nat
    decreases k,
{
    if k == 0 { 1 } else { 10 * pow10((k - 1) as nat) }
}

proof fn lemma_pow10_step(k: nat)
    requires
        k < 9,
    ensures
        pow10(k + 1) == 10 * pow10(k),
        pow10(k) <= 100000000,
{
    reveal_with_fuel(pow10, 10);
    assert(k == 0 || k == 1 || k == 2 || k == 3 || k == 4 || k == 5 || k == 6 || k == 7 || k == 8);
}

/// The dummy hash, which the fixed salt and costs always give.
fn dummy_hash() -> (r: Option<String>)
    ensures
        r matches Some(d) && argon2_verifies(DUMMY_PASSWORD@, d@)
            && has_prefix(d@, argon2id_phc_prefix(ARGON2_M_COST, ARGON2_T_COST, ARGON2_P_COST) + DUMMY_SALT@ + "$"@),
{
    proof {
        reveal_strlit("c29tZWZpeGVkc2FsdDEy");
        reveal_strlit("trackly-dummy-password");
        assert(DUMMY_SALT@.len() == 20);
        assert(DUMMY_PASSWORD@.len() == 22);
        assert forall|i: int| 0 <= i < DUMMY_SALT@.len() implies is_b64_char(#[trigger] DUMMY_SALT@[i]) by {
            assert(DUMMY_SALT@ =~= seq!['c', '2', '9', 't', 'Z', 'W', 'Z', 'p', 'e', 'G', 'V', 'k', 'c', '2', 'F', 's', 'd', 'D', 'E', 'y']);
        }
        assert(argon2_salt_ok(DUMMY_SALT@));
        assert(argon2_password_ok(DUMMY_PASSWORD@));
        assert(argon2_costs_ok(ARGON2_M_COST, ARGON2_T_COST, ARGON2_P_COST));
    }
    argon2id_hash_with_salt(DUMMY_PASSWORD, DUMMY_SALT, ARGON2_M_COST, ARGON2_T_COST, ARGON2_P_COST)
}

/// The hash that a local login verifies against: the stored hash when the
/// login is known, otherwise a fixed dummy hash, so that both paths cost the
/// same. The flag tells whether the login was known.
pub fn login_hash(stored: Option<String>) -> (r: (String, bool))
    ensures
        stored matches Some(h) ==> r.0@ == h@ && r.1,
        stored is None ==> !r.1 && argon2_verifies(DUMMY_PASSWORD@, r.0@)
            && has_prefix(r.0@, password_hash_prefix() + DUMMY_SALT@ + "$"@),
{
    match stored {
        Some(h) => (h, true),
        None => match dummy_hash() {
            Some(d) => {
                proof {
                    lemma_password_hash_prefix();
                }
                (d, false)
            },
            None => (String::new(), false),
        },
    }
}

// ---------------------------------------------------------------------------
// Roles and validation
// ---------------------------------------------------------------------------

/// The roles a user can have.
#[derive(Clone, Copy, Debug, PartialEq, Eq)]
pub enum Role {
    Admin,
    Manager,
    Employee,
}

/// The role named by `s`, if any.
pub open spec fn role_named(s: Seq<char>) -> Option<Role> {
    if s == "admin"@ {
        Some(Role::Admin)
    } else if s == "manager"@ {
        Some(Role::Manager)
    } else if s == "employee"@ {
        Some(Role::Employee)
    } else {
        None
    }
}

/// Exactly the names `admin`, `manager` and `employee` are roles, and no
/// two names give the same role.
pub proof fn role_names_are_distinct(a: Seq<char>, b: Seq<char>)
    ensures
        role_named(a) is Some <==> (a == "admin"@ || a == "manager"@ || a == "employee"@),
        role_named(a) is Some && a != b ==> role_named(a) != role_named(b),
{
    reveal_strlit("admin");
    reveal_strlit("manager");
    reveal_strlit("employee");
    assert("admin"@[0] != "manager"@[0] && "admin"@[0] != "employee"@[0] && "manager"@[0] != "employee"@[0]);
}

/// Message for an unknown role.
pub open spec fn unknown_role_message(s: Seq<char>) -> Seq<char> {
    "Неизвестная роль: "@ + s
}

/// Parses a role name; any other text is a validation error on `role`.
pub fn role_from_str(s: &str) -> (r: Result<Role, AppError>)
    ensures
        role_named(s@) matches Some(role) ==> r == Ok::<Role, AppError>(role),
        role_named(s@) is None ==> (r matches Err(AppError::Validation { field, message })
            && field@ == "role"@ && message@ == unknown_role_message(s@)),
{
    if crate::text::str_eq(s, "admin") {
        Ok(Role::Admin)
    } else if crate::text::str_eq(s, "manager") {
        Ok(Role::Manager)
    } else if crate::text::str_eq(s, "employee") {
        Ok(Role::Employee)
    } else {
        let mut msg = String::new();
        msg.append("Неизвестная роль: ");
        msg.append(s);
        Err(AppError::Validation { field: "role".to_owned(), message: msg })
    }
}

/// What a new user is created from.
pub struct UserNew {
    pub login: String,
    pub full_name: String,
    pub password: String,
    pub role: String,
    pub email: Option<String>,
}

/// Message for a login shorter than 3 characters.
pub open spec fn short_login_message() -> Seq<char> {
    "Логин должен быть не менее 3 символов"@
}

/// Message for a password shorter than 8 characters.
pub open spec fn short_password_message() -> Seq<char> {
    "Пароль должен быть не менее 8 символов"@
}

/// Checks a new user: a login of at least 3 characters, a password of at least
/// 8 characters and a known role, in that order.
pub fn validate_user_new(new: &UserNew) -> (r: Result<(), AppError>)
    ensures
        new.login@.len() < 3 ==> (r matches Err(AppError::Validation { field, message })
            && field@ == "login"@ && message@ == short_login_message()),
        new.login@.len() >= 3 && new.password@.len() < 8 ==> (r matches Err(AppError::Validation { field, message })
            && field@ == "password"@ && message@ == short_password_message()),
        new.login@.len() >= 3 && new.password@.len() >= 8 && role_named(new.role@) is None
            ==> (r matches Err(AppError::Validation { field, message })
            && field@ == "role"@ && message@ == unknown_role_message(new.role@)),
        r is Ok <==> (new.login@.len() >= 3 && new.password@.len() >= 8 && role_named(new.role@) is Some),
{
    if new.login.as_str().unicode_len() < 3 {
        return Err(crate::error::validation("login", "Логин должен быть не менее 3 символов"));
    }
    if new.password.as_str().unicode_len() < 8 {
        return Err(crate::error::validation("password", "Пароль должен быть не менее 8 символов"));
    }
    match role_from_str(new.role.as_str()) {
        Ok(_) => Ok(()),
        Err(e) => Err(e),
    }
}

/// Checks a replacement password (change or admin reset): at least 8 characters,
/// else a validation error on `new_password`.
pub fn validate_new_password(password: &str) -> (r: Result<(), AppError>)
    ensures
        password@.len() < 8 ==> (r matches Err(AppError::Validation { field, message })
            && field@ == "new_password"@ && message@ == short_password_message()),
        password@.len() >= 8 ==> r is Ok,
{
    if password.unicode_len() < 8 {
        return Err(crate::error::validation("new_password", "Пароль должен быть не менее 8 символов"));
    }
    Ok(())
}

/// The optional password of a user edit: absent or empty leaves the
/// password unchanged (`Ok(false)`); a non-empty one must have at least
/// 8 characters and is then to be hashed (`Ok(true)`).
pub fn patch_password_rotates(password: Option<&str>) -> (r: Result<bool, AppError>)
    ensures
        match password {
            None => r == Ok::<bool, AppError>(false),
            Some(p) => if p@.len() == 0 {
                r == Ok::<bool, AppError>(false)
            } else if p@.len() < 8 {
                r matches Err(AppError::Validation { field, message })
                    && field@ == "password"@ && message@ == short_password_message()
            } else {
                r == Ok::<bool, AppError>(true)
            },
        },
{
    match password {
        None => Ok(false),
        Some(p) => {
            if p.is_empty() {
                Ok(false)
            } else if p.unicode_len() < 8 {
                Err(crate::error::validation("password", "Пароль должен быть не менее 8 символов"))
            } else {
                Ok(true)
            }
        },
    }
}

// ---------------------------------------------------------------------------
// Login decisions
// ---------------------------------------------------------------------------

/// How a local (argon2) login attempt ended.
#[derive(Clone, Copy, Debug, PartialEq, Eq)]
pub enum LocalLoginOutcome {
    /// Known login, right password.
    Success,
    /// No active local user with a password has this login.
    UnknownLogin,
    /// Known login, wrong password.
    BadPassword,
}

/// The outcome of a local login from whether the login was known and
/// whether the password verified.
pub fn local_login_outcome(user_known: bool, verified: bool) -> (o: LocalLoginOutcome)
    ensures
        !user_known ==> o == LocalLoginOutcome::UnknownLogin,
        user_known && !verified ==> o == LocalLoginOutcome::BadPassword,
        user_known && verified ==> o == LocalLoginOutcome::Success,
{
    if !user_known {
        LocalLoginOutcome::UnknownLogin
    } else if !verified {
        LocalLoginOutcome::BadPassword
    } else {
        LocalLoginOutcome::Success
    }
}

/// What `login` does next after the local attempt.
#[derive(Clone, Copy, Debug, PartialEq, Eq)]
pub enum LoginNext {
    /// Load the local user and open a session.
    LocalSession,
    /// Fall back to an AD bind.
    TryAd,
}

/// Only an unknown login may fall back to AD, and only when AD is enabled;
/// a wrong password for a known login is refused outright.
pub fn login_next(outcome: LocalLoginOutcome, ad_enabled: bool) -> (r: Result<LoginNext, AppError>)
    ensures
        outcome == LocalLoginOutcome::Success ==> r == Ok::<LoginNext, AppError>(LoginNext::LocalSession),
        outcome == LocalLoginOutcome::BadPassword ==> r == Err::<LoginNext, AppError>(AppError::Unauthorized),
        outcome == LocalLoginOutcome::UnknownLogin && ad_enabled ==> r == Ok::<LoginNext, AppError>(LoginNext::TryAd),
        outcome == LocalLoginOutcome::UnknownLogin && !ad_enabled ==> r == Err::<LoginNext, AppError>(AppError::Unauthorized),
{
    match outcome {
        LocalLoginOutcome::Success => Ok(LoginNext::LocalSession),
        LocalLoginOutcome::BadPassword => Err(AppError::Unauthorized),
        LocalLoginOutcome::UnknownLogin => {
            if ad_enabled {
                Ok(LoginNext::TryAd)
            } else {
                Err(AppError::Unauthorized)
            }
        },
    }
}

/// An empty or white-space password would be an anonymous LDAP bind, which
/// many servers accept: such a password is refused before any bind.
pub fn ad_password_precheck(password: &str) -> (r: Result<(), AppError>)
    ensures
        is_blank(password@) ==> r == Err::<(), AppError>(AppError::Unauthorized),
        !is_blank(password@) ==> r is Ok,
{
    if blank(password) {
        Err(AppError::Unauthorized)
    } else {
        Ok(())
    }
}

/// The answer of an AD bind.
#[derive(Clone, Debug, PartialEq, Eq)]
pub enum AdAuthOutcome {
    Accepted { display_name: String },
    BadCreds,
    Unreachable,
}

/// `true` when `e` is the "AD unavailable" error.
pub open spec fn is_ad_unavailable(e: AppError) -> bool {
    e matches AppError::ServiceUnavailable { service } && service@ == "ad"@
}

/// The display name of a successful bind; wrong credentials are
/// `Unauthorized`, an unreachable server is "AD unavailable".
pub fn ad_bind_display_name(outcome: AdAuthOutcome) -> (r: Result<String, AppError>)
    ensures
        outcome matches AdAuthOutcome::Accepted { display_name } ==> (r matches Ok(d) && d@ == display_name@),
        outcome is BadCreds ==> r == Err::<String, AppError>(AppError::Unauthorized),
        outcome is Unreachable ==> (r matches Err(e) && is_ad_unavailable(e)),
{
    match outcome {
        AdAuthOutcome::Accepted { display_name } => Ok(display_name),
        AdAuthOutcome::BadCreds => Err(AppError::Unauthorized),
        AdAuthOutcome::Unreachable => Err(AppError::ServiceUnavailable { service: "ad".to_owned() }),
    }
}

/// The admin "test connection" action: only a successful answer is `Ok`;
/// every other answer, bad credentials included, reports AD as unavailable.
pub fn ad_connection_result(outcome: &AdAuthOutcome) -> (r: Result<(), AppError>)
    ensures
        outcome is Accepted ==> r is Ok,
        !(outcome is Accepted) ==> (r matches Err(e) && is_ad_unavailable(e)),
{
    match outcome {
        AdAuthOutcome::Accepted { .. } => Ok(()),
        _ => Err(AppError::ServiceUnavailable { service: "ad".to_owned() }),
    }
}

/// A user row looked up by login whatever its state.
#[derive(Clone, Debug, PartialEq, Eq)]
pub struct UserAnyState {
    pub id: i64,
    pub role: String,
    pub is_active: bool,
    pub deleted: bool,
    /// An open `ad_register`/`register` request exists: the registration was
    /// never approved (pending), as opposed to blocked after approval.
    pub has_open_register_request: bool,
}

/// Active and not deleted.
pub open spec fn is_active_user(u: UserAnyState) -> bool {
    u.is_active && !u.deleted
}

/// Registered through AD and still waiting for approval.
pub open spec fn is_pending_user(u: UserAnyState) -> bool {
    !u.is_active && !u.deleted && u.has_open_register_request
}

/// Blocked by an administrator or soft-deleted.
pub open spec fn is_blocked_user(u: UserAnyState) -> bool {
    !is_active_user(u) && !is_pending_user(u)
}

/// What happens after a successful AD bind.
#[derive(Clone, Copy, Debug, PartialEq, Eq)]
pub enum AdBindAction {
    /// The user is active: open a session.
    Session,
    /// The registration is still pending: reuse its open request.
    ReusePendingRegistration { user_id: i64 },
    /// Blocked or deleted: report the restore-request state, create nothing.
    ReportBlocked { user_id: i64 },
    /// Unknown user, auto-accept on: create an active user.
    AutoRegister,
    /// Unknown user, auto-accept off: create an inactive user and a request.
    CreatePendingRegistration,
}

/// The branch taken after a successful AD bind.
pub open spec fn ad_bind_action_spec(found: Option<UserAnyState>, auto_accept: bool) -> AdBindAction {
    match found {
        Some(u) => if is_active_user(u) {
            AdBindAction::Session
        } else if is_pending_user(u) {
            AdBindAction::ReusePendingRegistration { user_id: u.id }
        } else {
            AdBindAction::ReportBlocked { user_id: u.id }
        },
        None => if auto_accept {
            AdBindAction::AutoRegister
        } else {
            AdBindAction::CreatePendingRegistration
        },
    }
}

/// Decides what a successful AD bind leads to, from the user's state and the
/// `ad_auto_accept` setting.
pub fn ad_bind_action(found: Option<&UserAnyState>, auto_accept: bool) -> (a: AdBindAction)
    ensures
        a == ad_bind_action_spec(match found { Some(u) => Some(*u), None => None }, auto_accept),
{
    match found {
        Some(u) => {
            if u.is_active && !u.deleted {
                AdBindAction::Session
            } else if !u.is_active && !u.deleted && u.has_open_register_request {
                AdBindAction::ReusePendingRegistration { user_id: u.id }
            } else {
                AdBindAction::ReportBlocked { user_id: u.id }
            }
        },
        None => {
            if auto_accept {
                AdBindAction::AutoRegister
            } else {
                AdBindAction::CreatePendingRegistration
            }
        },
    }
}

/// The user an explicit restore request is for: only a blocked or deleted
/// user; anyone else (active, pending, unknown) gets the generic
/// `Unauthorized`, so the action reveals nothing about the account.
pub fn restore_target(found: Option<&UserAnyState>) -> (r: Result<i64, AppError>)
    ensures
        match found {
            Some(u) => if is_blocked_user(*u) {
                r == Ok::<i64, AppError>(u.id)
            } else {
                r == Err::<i64, AppError>(AppError::Unauthorized)
            },
            None => r == Err::<i64, AppError>(AppError::Unauthorized),
        },
{
    match found {
        Some(u) => {
            if u.is_active && !u.deleted {
                Err(AppError::Unauthorized)
            } else if !u.is_active && !u.deleted && u.has_open_register_request {
                Err(AppError::Unauthorized)
            } else {
                Ok(u.id)
            }
        },
        None => Err(AppError::Unauthorized),
    }
}

/// An explicit restore request is accepted exactly for the users that a
/// successful AD bind reports as blocked, and for the same user id.
pub proof fn restore_target_matches_bind(found: Option<UserAnyState>, auto_accept: bool)
    ensures
        (ad_bind_action_spec(found, auto_accept) is ReportBlocked) <==> (found matches Some(u) && is_blocked_user(u)),
        ad_bind_action_spec(found, auto_accept) matches AdBindAction::ReportBlocked { user_id }
            ==> found matches Some(u) && u.id == user_id,
{
}

/// The state of a user's most recent restore request.
#[derive(Clone, Debug, PartialEq, Eq)]
pub struct RestoreRequestState {
    /// An open restore request exists.
    pub pending: bool,
    /// The notes of the latest request when it was rejected and none is open.
    pub rejection_reason: Option<String>,
}

/// From whether an open restore request exists and the latest request's
/// `(status, resolution_notes)`: pending when one is open; otherwise the
/// notes of the latest request if it was rejected.
pub fn restore_request_state(has_open: bool, latest: Option<(String, Option<String>)>) -> (s: RestoreRequestState)
    ensures
        has_open ==> s.pending && s.rejection_reason is None,
        !has_open ==> !s.pending,
        !has_open ==> match latest {
            Some((status, notes)) => if status@ == "rejected"@ {
                match notes {
                    Some(n) => s.rejection_reason matches Some(x) && x@ == n@,
                    None => s.rejection_reason is None,
                }
            } else {
                s.rejection_reason is None
            },
            None => s.rejection_reason is None,
        },
{
    if has_open {
        return RestoreRequestState { pending: true, rejection_reason: None };
    }
    let rejection_reason = match latest {
        Some((status, notes)) => {
            if crate::text::str_eq(status.as_str(), "rejected") {
                notes
            } else {
                None
            }
        },
        None => None,
    };
    RestoreRequestState { pending: false, rejection_reason }
}

/// The error a blocked user's login returns, carrying the restore state.
pub fn blocked_access_error(state: RestoreRequestState) -> (e: AppError)
    ensures
        e == (AppError::AccessBlocked { pending: state.pending, rejection_reason: state.rejection_reason }),
{
    AppError::AccessBlocked { pending: state.pending, rejection_reason: state.rejection_reason }
}

/// A boolean setting stored as text: only `"1"` is on; any other value or a
/// missing row is off.
pub fn setting_flag(value: Option<&str>) -> (b: bool)
    ensures
        b == (value matches Some(v) && v@ == "1"@),
{
    match value {
        Some(v) => crate::text::str_eq(v, "1"),
        None => false,
    }
}

/// The stored text of a boolean setting.
pub fn flag_text(enabled: bool) -> (s: &'static str)
    ensures
        enabled ==> s@ == "1"@,
        !enabled ==> s@ == "0"@,
{
    if enabled { "1" } else { "0" }
}

/// Writing a flag and reading it back gives the flag.
pub proof fn setting_flag_round_trip(enabled: bool, stored: Seq<char>)
    requires
        enabled ==> stored == "1"@,
        !enabled ==> stored == "0"@,
    ensures
        (stored == "1"@) == enabled,
{
    reveal_strlit("1");
    reveal_strlit("0");
    if !enabled {
        assert(stored[0] != "1"@[0]);
    }
}

// ---------------------------------------------------------------------------
// User CRUD guards
// ---------------------------------------------------------------------------

/// What creating a user does with a row that already has its login.
#[derive(Clone, Copy, Debug, PartialEq, Eq)]
pub enum CreateUserPlan {
    /// No row: insert.
    Insert,
    /// A soft-deleted row: revive it in place, keeping its id.
    Revive { id: i64 },
}

/// Message for a login already owned by a live user.
pub open spec fn login_taken_message(login: Seq<char>) -> Seq<char> {
    "Логин '"@ + login + "' уже занят"@
}

/// From the existing row with this login (`(id, deleted)`): none → insert,
/// soft-deleted → revive, live → conflict.
pub fn create_user_plan(login: &str, existing: Option<(i64, bool)>) -> (r: Result<CreateUserPlan, AppError>)
    ensures
        existing is None ==> r == Ok::<CreateUserPlan, AppError>(CreateUserPlan::Insert),
        existing matches Some((id, true)) ==> r == Ok::<CreateUserPlan, AppError>(CreateUserPlan::Revive { id }),
        existing matches Some((_, false)) ==> (r matches Err(e) && crate::error::is_conflict(e, login_taken_message(login@))),
{
    match existing {
        None => Ok(CreateUserPlan::Insert),
        Some((id, deleted)) => {
            if deleted {
                Ok(CreateUserPlan::Revive { id })
            } else {
                let mut msg = String::new();
                msg.append("Логин '");
                msg.append(login);
                msg.append("' уже занят");
                Err(AppError::Conflict { reason: msg })
            }
        },
    }
}

/// Message for a stale optimistic-lock version.
pub open spec fn version_mismatch_message(expected: int, current: int) -> Seq<char> {
    "optimistic lock: version "@ + signed_decimal(expected) + " != current "@ + signed_decimal(current)
}

/// The optimistic lock: the caller's version must equal the stored one.
pub fn check_user_version(expected: i64, current: i64) -> (r: Result<(), AppError>)
    ensures
        expected == current ==> r is Ok,
        expected != current ==> (r matches Err(e)
            && crate::error::is_conflict(e, version_mismatch_message(expected as int, current as int))),
{
    if expected == current {
        return Ok(());
    }
    let mut msg = String::new();
    msg.append("optimistic lock: version ");
    push_all(&mut msg, &signed_decimal_chars(expected));
    msg.append(" != current ");
    push_all(&mut msg, &signed_decimal_chars(current));
    Err(AppError::Conflict { reason: msg })
}

/// The edit lowers the role (to employee or manager).
pub open spec fn downgrades_role(role: Option<Seq<char>>) -> bool {
    role matches Some(r) && (r == "employee"@ || r == "manager"@)
}

/// The edit is refused: it demotes or deactivates the target while the
/// target is the only active administrator (at most one active admin).
pub open spec fn update_refused(role: Option<Seq<char>>, is_active: Option<bool>, active_admins: int, target_is_active_admin: bool) -> bool {
    (downgrades_role(role) || is_active == Some(false)) && active_admins <= 1 && target_is_active_admin
}

/// The deletion is refused: the target is the only active administrator.
pub open spec fn delete_refused(active_admins: int, target_is_active_admin: bool) -> bool {
    active_admins <= 1 && target_is_active_admin
}

/// Refuses an edit that demotes or deactivates the last active administrator.
pub fn guard_last_admin_update(
    role: Option<&str>,
    is_active: Option<bool>,
    active_admins: i64,
    target_is_active_admin: bool,
) -> (r: Result<(), AppError>)
    ensures
        r is Err <==> update_refused(match role { Some(x) => Some(x@), None => None }, is_active, active_admins as int, target_is_active_admin),
        r matches Err(e) ==> crate::error::is_conflict(e, "нельзя понизить или деактивировать последнего администратора"@),
{
    let downgrades = match role {
        Some(x) => crate::text::str_eq(x, "employee") || crate::text::str_eq(x, "manager"),
        None => false,
    };
    let deactivates = match is_active {
        Some(b) => !b,
        None => false,
    };
    if (downgrades || deactivates) && active_admins <= 1 && target_is_active_admin {
        return Err(AppError::Conflict {
            reason: "нельзя понизить или деактивировать последнего администратора".to_owned(),
        });
    }
    Ok(())
}

/// Refuses to soft-delete the last active administrator.
pub fn guard_last_admin_delete(active_admins: i64, target_is_active_admin: bool) -> (r: Result<(), AppError>)
    ensures
        r is Err <==> delete_refused(active_admins as int, target_is_active_admin),
        r matches Err(e) ==> crate::error::is_conflict(e, "нельзя удалить последнего администратора"@),
{
    if active_admins <= 1 && target_is_active_admin {
        return Err(AppError::Conflict { reason: "нельзя удалить последнего администратора".to_owned() });
    }
    Ok(())
}

/// The only active administrator stays one: when the target is the sole
/// active admin, an edit that passes the guard keeps the role from being
/// lowered and the account active, and a deletion never passes.
pub proof fn last_admin_is_kept(role: Option<Seq<char>>, is_active: Option<bool>, active_admins: int)
    requires
        active_admins <= 1,
        !update_refused(role, is_active, active_admins, true),
    ensures
        !downgrades_role(role),
        is_active != Some(false),
        delete_refused(active_admins, true),
{
}

/// The identity of the desktop mode without login: the one active admin
/// when there is exactly one (`Some(id)`), else the trusted anonymous admin
/// (`None`). `admin_ids` holds at most the first two active admins.
pub fn desktop_admin(admin_ids: &Vec<i64>) -> (r: Option<i64>)
    ensures
        admin_ids.len() == 1 ==> r == Some(admin_ids[0]),
        admin_ids.len() != 1 ==> r is None,
{
    if admin_ids.len() == 1 {
        Some(admin_ids[0])
    } else {
        None
    }
}

} // verus!
