//! The offline key-provisioning workflow: PIN validation, key derivation
//! through a slow password-based function with a stored salt, salt
//! rotation, and the diagnostic cross-check of the daemon's configuration.
//!
//! Text values — the salt's hex text, file paths, messages — are held as
//! their bytes; the surrounding tool turns them into strings for display.

use vstd::prelude::*;
use vstd::string::StringSliceAdditionalSpecFns;
use crate::errors::GpsJwtPinError;
use crate::hexcodec::hex_decode;
use crate::hexcodec::hex_encode;
use crate::hexcodec::spec_hex_decode;
use crate::hexcodec::spec_hex_encode;
use crate::jsonflat::all_digits;

verus! {

/// The bytes of a string literal.
pub(crate) fn msg_bytes(s: &str) -> (r: Vec<u8>)
    ensures
        r@ == s.spec_bytes(),
{
    vstd::slice::slice_to_vec(s.as_bytes())
}

/// Append a slice to a byte vector.
#[verifier::loop_isolation(false)]
fn append_bytes(dst: &mut Vec<u8>, src: &[u8])
    ensures
        final(dst)@ == old(dst)@ + src@,
{
    let n: usize = src.len();
    let mut i: usize = 0;
    proof {
        assert(old(dst)@ + src@.take(0) =~= old(dst)@);
    }
    while i < n
        invariant
            i <= n,
            dst@ == old(dst)@ + src@.take(i as int),
        decreases n - i,
    {
        dst.push(src[i]);
        proof {
            assert(old(dst)@ + src@.take(i as int) + seq![src@[i as int]] =~= old(dst)@
                + src@.take(i + 1));
        }
        i = i + 1;
    }
    proof {
        assert(src@.take(n as int) =~= src@);
    }
}

/// The text whose hex encoding is the built-in default salt.
pub open spec fn default_salt_text() -> Seq<u8> {
    "rayhunter_enhanced_default_salt_2024".spec_bytes()
}

/// The built-in default path of the secret file.
pub open spec fn default_key_path() -> Seq<u8> {
    "/etc/keys/jwt-key.txt".spec_bytes()
}

/// The built-in default path of the daemon's configuration.
pub open spec fn default_daemon_path() -> Seq<u8> {
    "/etc/rayhunter/daemon.toml".spec_bytes()
}

/// Provisioning configuration: the stored salt as hex text, the work
/// factor and output size of the derivation, and the two file paths the
/// tool works against.
#[derive(Debug)]
pub struct Config {
    pub salt: Vec<u8>,
    pub iterations: u32,
    pub key_length: usize,
    pub key_file_path: Vec<u8>,
    pub daemon_config_path: Vec<u8>,
}

impl Default for Config {
    /// The built-in defaults: the hex of a fixed salt text, one hundred
    /// thousand iterations, a 64-byte key, and the fixed system paths.
    fn default() -> (r: Self)
        ensures
            r.salt@ == spec_hex_encode(default_salt_text()),
            r.iterations == 100000,
            r.key_length == 64,
            r.key_file_path@ == default_key_path(),
            r.daemon_config_path@ == default_daemon_path(),
    {
        let text = msg_bytes("rayhunter_enhanced_default_salt_2024");
        Config {
            salt: hex_encode(text.as_slice()),
            iterations: 100000,
            key_length: 64,
            key_file_path: msg_bytes("/etc/keys/jwt-key.txt"),
            daemon_config_path: msg_bytes("/etc/rayhunter/daemon.toml"),
        }
    }
}

/// One byte drawn from the process-wide random generator. Nothing can be
/// promised of the value.
///
/// Relies on rand::random.
#[verifier::external_body]
fn random_u8() -> u8 {
    rand::random::<u8>()
}

/// Thirty-two fresh random bytes for a new salt.
#[verifier::loop_isolation(false)]
pub fn generate_salt_bytes() -> (r: Vec<u8>)
    ensures
        r@.len() == 32,
{
    let mut v: Vec<u8> = Vec::new();
    let mut i: usize = 0;
    while i < 32
        invariant
            i <= 32,
            v@.len() == i,
        decreases 32 - i,
    {
        v.push(random_u8());
        i = i + 1;
    }
    v
}

impl Config {
    /// Replace the stored salt with the hex text of thirty-two fresh
    /// random bytes; every other field is left as it was.
    pub fn generate_new_salt(&mut self)
        ensures
            final(self).salt@.len() == 64,
            final(self).iterations == old(self).iterations,
            final(self).key_length == old(self).key_length,
            final(self).key_file_path@ == old(self).key_file_path@,
            final(self).daemon_config_path@ == old(self).daemon_config_path@,
    {
        let fresh = generate_salt_bytes();
        self.salt = hex_encode(fresh.as_slice());
    }
}

/// The key PBKDF2-HMAC-SHA256 derives from a password and salt at a work
/// factor, at a given output length. The key is a function of the
/// arguments alone; what it is on given values is stated nowhere.
pub uninterp spec fn pbkdf2_key(
    password: Seq<u8>,
    salt: Seq<u8>,
    iterations: u32,
    length: int,
) -> Seq<u8>;

/// Relies on pbkdf2's pbkdf2_hmac::<Sha256>: it fills the output buffer of
/// the requested length, deterministically from password, salt and rounds
/// alone, and accepts any password length for HMAC.
#[verifier::external_body]
fn pbkdf2_sha256(password: &[u8], salt: &[u8], iterations: u32, length: usize) -> (r: Vec<u8>)
    ensures
        r@ == pbkdf2_key(password@, salt@, iterations, length as int),
        r@.len() == length,
{
    let mut key = vec![0u8; length];
    pbkdf2::pbkdf2_hmac::<sha2::Sha256>(password, salt, iterations, &mut key);
    key
}

/// Identical inputs always yield the identical derived key: the
/// derivation is a function of PIN, salt, iterations and length alone.
pub proof fn lemma_derive_key_deterministic(
    password: Seq<u8>,
    salt: Seq<u8>,
    iterations: u32,
    length: int,
)
    ensures
        pbkdf2_key(password, salt, iterations, length) == pbkdf2_key(
            password,
            salt,
            iterations,
            length,
        ),
{
}

/// Derive the secret from a PIN under a configuration: decode the stored
/// salt from hex, run PBKDF2-HMAC-SHA256 at the configured work factor
/// and output size, and give the key back as hex text.
pub fn derive_key_from_pin(pin: &[u8], config: &Config) -> (r: Result<Vec<u8>, GpsJwtPinError>)
    ensures
        (match r {
            Ok(k) => spec_hex_decode(config.salt@) is Some && k@ == spec_hex_encode(
                pbkdf2_key(
                    pin@,
                    spec_hex_decode(config.salt@)->0,
                    config.iterations,
                    config.key_length as int,
                ),
            ),
            Err(GpsJwtPinError::KeyDerivation(m)) => spec_hex_decode(config.salt@) is None && m@
                == "Invalid salt format"@,
            Err(_) => false,
        }),
{
    let salt = match hex_decode(config.salt.as_slice()) {
        Some(s) => s,
        None => {
            return Err(GpsJwtPinError::KeyDerivation("Invalid salt format".to_owned()));
        },
    };
    let key = pbkdf2_sha256(pin, salt.as_slice(), config.iterations, config.key_length);
    Ok(hex_encode(key.as_slice()))
}

/// Every character of the candidate PIN is the same digit.
pub open spec fn pin_all_same(s: Seq<u8>) -> bool {
    forall|i: int| 0 <= i < s.len() ==> #[trigger] s[i] == s[0]
}

/// The candidate PIN is one of the four canonical sequential patterns.
pub open spec fn pin_sequential(s: Seq<u8>) -> bool {
    s == "12345678".spec_bytes() || s == "87654321".spec_bytes() || s == "01234567".spec_bytes()
        || s == "76543210".spec_bytes()
}

/// An acceptable PIN: exactly eight ASCII digits, not all the same digit,
/// not a canonical ascending or descending run.
pub open spec fn spec_valid_pin(s: Seq<u8>) -> bool {
    s.len() == 8 && all_digits(s) && !pin_all_same(s) && !pin_sequential(s)
}

/// The message a rejected PIN is refused with.
pub open spec fn spec_pin_message(s: Seq<u8>) -> Seq<char> {
    if s.len() != 8 {
        "PIN must be exactly 8 digits"@
    } else if !all_digits(s) {
        "PIN must contain only digits (0-9)"@
    } else if pin_all_same(s) {
        "PIN is too weak - all digits are the same"@
    } else {
        "PIN is too weak - avoid simple sequential patterns"@
    }
}

/// Validate a candidate PIN: exactly eight ASCII digits, and not on the
/// deny list of the ten all-identical strings and the four canonical
/// sequential patterns.
#[verifier::loop_isolation(false)]
pub fn validate_pin(pin: &[u8]) -> (r: Result<(), GpsJwtPinError>)
    ensures
        (match r {
            Ok(()) => spec_valid_pin(pin@),
            Err(GpsJwtPinError::PinValidation(m)) => !spec_valid_pin(pin@) && m@
                == spec_pin_message(pin@),
            Err(_) => false,
        }),
{
    if pin.len() != 8 {
        return Err(GpsJwtPinError::PinValidation("PIN must be exactly 8 digits".to_owned()));
    }
    let mut i: usize = 0;
    while i < 8
        invariant
            i <= 8,
            pin@.len() == 8,
            forall|j: int| 0 <= j < i ==> crate::jsonflat::is_digit(#[trigger] pin@[j]),
        decreases 8 - i,
    {
        let c = pin[i];
        if !(48 <= c && c <= 57) {
            return Err(
                GpsJwtPinError::PinValidation("PIN must contain only digits (0-9)".to_owned()),
            );
        }
        i = i + 1;
    }
    let first = pin[0];
    let mut same = true;
    let mut k: usize = 1;
    while k < 8
        invariant
            1 <= k <= 8,
            pin@.len() == 8,
            same <==> (forall|j: int| 0 <= j < k ==> #[trigger] pin@[j] == pin@[0]),
        decreases 8 - k,
    {
        if pin[k] != first {
            same = false;
        }
        k = k + 1;
    }
    if same {
        return Err(
            GpsJwtPinError::PinValidation("PIN is too weak - all digits are the same".to_owned()),
        );
    }
    let asc = msg_bytes("12345678");
    let desc = msg_bytes("87654321");
    let asc0 = msg_bytes("01234567");
    let desc0 = msg_bytes("76543210");
    if crate::claims::bytes_eq(pin, asc.as_slice()) || crate::claims::bytes_eq(
        pin,
        desc.as_slice(),
    ) || crate::claims::bytes_eq(pin, asc0.as_slice()) || crate::claims::bytes_eq(
        pin,
        desc0.as_slice(),
    ) {
        return Err(
            GpsJwtPinError::PinValidation(
                "PIN is too weak - avoid simple sequential patterns".to_owned(),
            ),
        );
    }
    Ok(())
}


/// Whether `needle` occurs as a contiguous run inside `hay`.
pub open spec fn spec_contains_sub(hay: Seq<u8>, needle: Seq<u8>) -> bool {
    exists|i: int|
        0 <= i <= hay.len() - needle.len() && #[trigger] hay.subrange(i, i + needle.len())
            == needle
}

/// Whether `needle` occurs as a contiguous run inside `hay`.
#[verifier::loop_isolation(false)]
pub fn contains_sub(hay: &[u8], needle: &[u8]) -> (r: bool)
    ensures
        r <==> spec_contains_sub(hay@, needle@),
{
    let hn: usize = hay.len();
    let nn: usize = needle.len();
    if nn > hn {
        return false;
    }
    let mut i: usize = 0;
    while i <= hn - nn
        invariant
            i <= hn - nn + 1,
            nn <= hn,
            forall|j: int| 0 <= j < i ==> #[trigger] hay@.subrange(j, j + needle@.len()) != needle@,
        decreases hn - i,
    {
        let mut k: usize = 0;
        let mut hit = true;
        while k < nn
            invariant
                k <= nn,
                i + nn <= hn,
                hit <==> (forall|t: int| 0 <= t < k ==> hay@[i + t] == #[trigger] needle@[t]),
            decreases nn - k,
        {
            if hay[i + k] != needle[k] {
                proof {
                    assert(hay@[i + k] != needle@[k as int]);
                }
                hit = false;
            }
            k = k + 1;
        }
        if hit {
            proof {
                assert(hay@.subrange(i as int, i + needle@.len()) =~= needle@);
            }
            return true;
        }
        proof {
            let w = choose|t: int| 0 <= t < nn && hay@[i + t] != needle@[t];
            assert(hay@.subrange(i as int, i + needle@.len())[w] == hay@[i + w]);
            assert(hay@.subrange(i as int, i + needle@.len()) != needle@);
        }
        i = i + 1;
    }
    false
}

/// The outcome of the provisioning tool's checks, as shown to the
/// operator.
#[derive(Debug)]
pub struct Status {
    pub success: bool,
    pub message: Vec<u8>,
    pub details: Option<Vec<u8>>,
    pub error: Option<Vec<u8>>,
}

/// Mathematical image of `Status`.
pub struct SpecStatus {
    pub success: bool,
    pub message: Seq<u8>,
    pub details: Option<Seq<u8>>,
    pub error: Option<Seq<u8>>,
}

pub open spec fn opt_bytes_view(v: Option<Vec<u8>>) -> Option<Seq<u8>> {
    match v {
        Some(x) => Some(x@),
        None => None,
    }
}

impl View for Status {
    type V = SpecStatus;

    open spec fn view(&self) -> SpecStatus {
        SpecStatus {
            success: self.success,
            message: self.message@,
            details: opt_bytes_view(self.details),
            error: opt_bytes_view(self.error),
        }
    }
}

/// The three octal digits of a file mode's permission bits.
pub open spec fn octal3(m: u32) -> Seq<u8> {
    seq![(48 + (m / 64) % 8) as u8, (48 + (m / 8) % 8) as u8, (48 + m % 8) as u8]
}

/// What the daemon's configuration text says about the secret file: the
/// report names the path variable when the text mentions it.
pub open spec fn daemon_report(content: Option<Seq<u8>>) -> Seq<u8> {
    match content {
        None => "Daemon configuration file not found".spec_bytes(),
        Some(c) => if spec_contains_sub(c, "RAYHUNTER_JWT_KEY_FILE".spec_bytes()) {
            "Daemon configuration includes JWT key file path".spec_bytes()
        } else {
            "Daemon configuration does not specify JWT key file path".spec_bytes()
        },
    }
}

/// The cross-check of the daemon-side environment variable against the
/// configured secret-file path.
pub open spec fn env_report(env: Option<Seq<u8>>, expected_path: Seq<u8>) -> Seq<u8> {
    match env {
        None => "Environment variable RAYHUNTER_JWT_KEY_FILE is not set".spec_bytes(),
        Some(v) => if v == expected_path {
            "Environment variable RAYHUNTER_JWT_KEY_FILE is set to: ".spec_bytes() + v
        } else {
            "Environment variable RAYHUNTER_JWT_KEY_FILE is set to: ".spec_bytes() + v
                + " (expected: ".spec_bytes() + expected_path + ")".spec_bytes()
        },
    }
}

/// The verdict of the daemon-configuration check from what was observed:
/// it fails when the secret file is absent or world-accessible, and
/// otherwise reports the configuration reference and the environment
/// cross-check. It decides only; nothing is mutated.
pub open spec fn spec_daemon_status(
    key_path: Seq<u8>,
    key_exists: bool,
    mode: u32,
    content: Option<Seq<u8>>,
    env: Option<Seq<u8>>,
) -> SpecStatus {
    if !key_exists {
        SpecStatus {
            success: false,
            message: "Daemon configuration check completed".spec_bytes(),
            details: None,
            error: Some("JWT key file not found: ".spec_bytes() + key_path),
        }
    } else if mode % 512 != 384 {
        SpecStatus {
            success: false,
            message: "Daemon configuration check completed".spec_bytes(),
            details: None,
            error: Some("Key file has insecure permissions: ".spec_bytes() + octal3(mode)),
        }
    } else {
        SpecStatus {
            success: true,
            message: "Daemon configuration check completed".spec_bytes(),
            details: Some(
                daemon_report(content) + "; ".spec_bytes() + env_report(env, key_path),
            ),
            error: None,
        }
    }
}

/// Check the daemon-side arrangements around the secret file, from what
/// the surrounding tool observed: whether the file exists, its permission
/// bits, the daemon configuration's text if present, and the environment
/// variable's value if set. Purely diagnostic.
pub fn check_daemon_config(
    config: &Config,
    key_file_exists: bool,
    key_file_mode: u32,
    daemon_content: Option<&Vec<u8>>,
    env_value: Option<&Vec<u8>>,
) -> (r: Status)
    ensures
        r@ == spec_daemon_status(
            config.key_file_path@,
            key_file_exists,
            key_file_mode,
            (match daemon_content {
                Some(c) => Some(c@),
                None => None,
            }),
            (match env_value {
                Some(v) => Some(v@),
                None => None,
            }),
        ),
{
    let message = msg_bytes("Daemon configuration check completed");
    if !key_file_exists {
        let mut error = msg_bytes("JWT key file not found: ");
        append_bytes(&mut error, config.key_file_path.as_slice());
        return Status { success: false, message, details: None, error: Some(error) };
    }
    if key_file_mode % 512 != 384 {
        let mut error = msg_bytes("Key file has insecure permissions: ");
        let d0: u8 = (48 + (key_file_mode / 64) % 8) as u8;
        let d1: u8 = (48 + (key_file_mode / 8) % 8) as u8;
        let d2: u8 = (48 + key_file_mode % 8) as u8;
        error.push(d0);
        error.push(d1);
        error.push(d2);
        proof {
            assert(error@ =~= "Key file has insecure permissions: ".spec_bytes() + octal3(
                key_file_mode,
            ));
        }
        return Status { success: false, message, details: None, error: Some(error) };
    }
    let mut details: Vec<u8> = match daemon_content {
        None => msg_bytes("Daemon configuration file not found"),
        Some(c) => {
            let var = msg_bytes("RAYHUNTER_JWT_KEY_FILE");
            if contains_sub(c.as_slice(), var.as_slice()) {
                msg_bytes("Daemon configuration includes JWT key file path")
            } else {
                msg_bytes("Daemon configuration does not specify JWT key file path")
            }
        },
    };
    let sep = msg_bytes("; ");
    append_bytes(&mut details, sep.as_slice());
    match env_value {
        None => {
            let t = msg_bytes("Environment variable RAYHUNTER_JWT_KEY_FILE is not set");
            append_bytes(&mut details, t.as_slice());
        },
        Some(v) => {
            let t = msg_bytes("Environment variable RAYHUNTER_JWT_KEY_FILE is set to: ");
            append_bytes(&mut details, t.as_slice());
            append_bytes(&mut details, v.as_slice());
            if !crate::claims::bytes_eq(v.as_slice(), config.key_file_path.as_slice()) {
                let e1 = msg_bytes(" (expected: ");
                append_bytes(&mut details, e1.as_slice());
                append_bytes(&mut details, config.key_file_path.as_slice());
                let e2 = msg_bytes(")");
                append_bytes(&mut details, e2.as_slice());
            }
        },
    }
    proof {
        assert(details@ =~= daemon_report(
            (match daemon_content {
                Some(c) => Some(c@),
                None => None,
            }),
        ) + "; ".spec_bytes() + env_report(
            (match env_value {
                Some(v) => Some(v@),
                None => None,
            }),
            config.key_file_path@,
        ));
    }
    Status { success: true, message, details: Some(details), error: None }
}

/// How the operator supplies the PIN.
#[derive(Clone, Copy, Debug, PartialEq, Eq, Structural)]
pub enum InputMethod {
    CommandLine,
    Stdin,
    Environment,
}

/// The provisioning tool's options.
#[derive(Debug)]
pub struct Args {
    pub pin: Option<Vec<u8>>,
    pub input_method: InputMethod,
    pub config: Vec<u8>,
    pub generate_salt: bool,
    pub check_daemon: bool,
    pub validate_key: bool,
    pub verbose: bool,
}

/// The built-in default path of the tool's own configuration file.
pub open spec fn default_config_path() -> Seq<u8> {
    "/etc/gps_jwt_pin/config.toml".spec_bytes()
}

/// The built-in default path of the tool's own configuration file, as a
/// runtime value.
pub fn default_config_path_bytes() -> (r: Vec<u8>)
    ensures
        r@ == default_config_path(),
{
    msg_bytes("/etc/gps_jwt_pin/config.toml")
}

/// The PIN taken from the command line: the option's value, or a refusal
/// when none was given.
pub fn pin_from_command_line(args: &Args) -> (r: Result<Vec<u8>, GpsJwtPinError>)
    ensures
        (match (r, args.pin) {
            (Ok(p), Some(q)) => p@ == q@,
            (Err(GpsJwtPinError::PinValidation(m)), None) => m@
                == "PIN required when using command line input method"@,
            _ => false,
        }),
{
    match &args.pin {
        Some(p) => Ok(p.clone()),
        None => Err(
            GpsJwtPinError::PinValidation(
                "PIN required when using command line input method".to_owned(),
            ),
        ),
    }
}

} // verus!
