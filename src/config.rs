use vstd::prelude::*;

verus! {

pub const DATABASE_URL_KEY: &'static str = "DATABASE_URL";
pub const SERVER_HOST_KEY: &'static str = "SERVER_HOST";
pub const SERVER_PORT_KEY: &'static str = "SERVER_PORT";
pub const PROOF_RESULTS_KEY: &'static str = "PROOF_RESULTS";
pub const PROOF_DEMO_KEY: &'static str = "PROOF_DEMO";
pub const PROOF_VIDEO_KEY: &'static str = "PROOF_VIDEO";
pub const BACKBLAZE_KEYID_KEY: &'static str = "BACKBLAZE_KEYID";
pub const BACKBLAZE_KEY_KEY: &'static str = "BACKBLAZE_KEY";
pub const BACKBLAZE_BUCKET_KEY: &'static str = "BACKBLAZE_BUCKET";

/// Server hosting information for mounting the webserver.
pub struct ServerConfig {
    pub host: String,
    pub port: i32,
}

/// The proof standards, update based on the mod tools desired.
pub struct ProofConfig {
    pub results: i32,
    pub demo: i32,
    pub video: i32,
}

/// Credentials and bucket of the demo file storage.
pub struct BackBlazeConfig {
    pub keyid: String,
    pub key: String,
    pub bucket: String,
}

/// The server's whole configuration.
pub struct Config {
    pub database_url: String,
    pub server: ServerConfig,
    pub proof: ProofConfig,
    pub backblaze: BackBlazeConfig,
}

/// Why the environment does not give a configuration; each names the variable.
#[derive(Debug)]
pub enum ConfigError {
    /// The variable is not set.
    Missing(String),
    /// The variable is set but is not an integer in range.
    Invalid(String),
}

pub enum ConfigErrorView {
    Missing(Seq<char>),
    Invalid(Seq<char>),
}

impl View for ConfigError {
    type V = ConfigErrorView;

    open spec fn view(&self) -> ConfigErrorView {
        match self {
            ConfigError::Missing(k) => ConfigErrorView::Missing(k@),
            ConfigError::Invalid(k) => ConfigErrorView::Invalid(k@),
        }
    }
}

pub open spec fn is_upper(c: char) -> bool {
    'A' <= c && c <= 'Z'
}

/// Two characters are equal up to ASCII case.
pub open spec fn chars_match(a: char, b: char) -> bool {
    a == b || (is_upper(a) && a as u32 + 32 == b as u32) || (is_upper(b) && b as u32 + 32
        == a as u32)
}

/// Variable names are compared without regard to ASCII case.
pub open spec fn names_match(a: Seq<char>, b: Seq<char>) -> bool {
    a.len() == b.len() && forall|i: int| 0 <= i < a.len() ==> #[trigger] chars_match(a[i], b[i])
}

pub open spec fn vars_view(vars: Seq<(String, String)>) -> Seq<(Seq<char>, Seq<char>)> {
    vars.map_values(|p: (String, String)| (p.0@, p.1@))
}

/// The value of the first variable whose name matches `key`.
pub open spec fn env_value(vars: Seq<(Seq<char>, Seq<char>)>, key: Seq<char>) -> Option<Seq<char>>
    decreases vars.len(),
{
    if vars.len() == 0 {
        None
    } else if names_match(vars[0].0, key) {
        Some(vars[0].1)
    } else {
        env_value(vars.drop_first(), key)
    }
}

pub open spec fn is_digit(c: char) -> bool {
    '0' as u32 <= c as u32 && c as u32 <= '9' as u32
}

pub open spec fn all_digits(s: Seq<char>) -> bool {
    s.len() > 0 && forall|i: int| 0 <= i < s.len() ==> #[trigger] is_digit(s[i])
}

pub open spec fn digits_value(s: Seq<char>) -> int
    decreases s.len(),
{
    if s.len() == 0 {
        0
    } else {
        digits_value(s.drop_last()) * 10 + (s.last() as u32 - '0' as u32)
    }
}

/// A decimal integer with an optional sign.
pub open spec fn signed_value(s: Seq<char>) -> Option<int> {
    if s.len() > 0 && s[0] == '-' && all_digits(s.drop_first()) {
        Some(-digits_value(s.drop_first()))
    } else if s.len() > 0 && s[0] == '+' && all_digits(s.drop_first()) {
        Some(digits_value(s.drop_first()))
    } else if all_digits(s) {
        Some(digits_value(s))
    } else {
        None
    }
}

pub open spec fn i32_value(s: Seq<char>) -> Option<i32> {
    match signed_value(s) {
        Some(v) => if i32::MIN <= v <= i32::MAX {
            Some(v as i32)
        } else {
            None
        },
        None => None,
    }
}

pub open spec fn text_setting(vars: Seq<(Seq<char>, Seq<char>)>, key: Seq<char>) -> Result<
    Seq<char>,
    ConfigErrorView,
> {
    match env_value(vars, key) {
        Some(v) => Ok(v),
        None => Err(ConfigErrorView::Missing(key)),
    }
}

pub open spec fn int_setting(vars: Seq<(Seq<char>, Seq<char>)>, key: Seq<char>) -> Result<
    i32,
    ConfigErrorView,
> {
    match env_value(vars, key) {
        Some(v) => match i32_value(v) {
            Some(n) => Ok(n),
            None => Err(ConfigErrorView::Invalid(key)),
        },
        None => Err(ConfigErrorView::Missing(key)),
    }
}

/// The first setting, in field order, that the environment does not give.
pub open spec fn config_error(vars: Seq<(Seq<char>, Seq<char>)>) -> Option<ConfigErrorView> {
    if text_setting(vars, DATABASE_URL_KEY@) is Err {
        Some(text_setting(vars, DATABASE_URL_KEY@)->Err_0)
    } else if text_setting(vars, SERVER_HOST_KEY@) is Err {
        Some(text_setting(vars, SERVER_HOST_KEY@)->Err_0)
    } else if int_setting(vars, SERVER_PORT_KEY@) is Err {
        Some(int_setting(vars, SERVER_PORT_KEY@)->Err_0)
    } else if int_setting(vars, PROOF_RESULTS_KEY@) is Err {
        Some(int_setting(vars, PROOF_RESULTS_KEY@)->Err_0)
    } else if int_setting(vars, PROOF_DEMO_KEY@) is Err {
        Some(int_setting(vars, PROOF_DEMO_KEY@)->Err_0)
    } else if int_setting(vars, PROOF_VIDEO_KEY@) is Err {
        Some(int_setting(vars, PROOF_VIDEO_KEY@)->Err_0)
    } else if text_setting(vars, BACKBLAZE_KEYID_KEY@) is Err {
        Some(text_setting(vars, BACKBLAZE_KEYID_KEY@)->Err_0)
    } else if text_setting(vars, BACKBLAZE_KEY_KEY@) is Err {
        Some(text_setting(vars, BACKBLAZE_KEY_KEY@)->Err_0)
    } else if text_setting(vars, BACKBLAZE_BUCKET_KEY@) is Err {
        Some(text_setting(vars, BACKBLAZE_BUCKET_KEY@)->Err_0)
    } else {
        None
    }
}

/// The configuration read from `vars` matches the settings field by field.
pub open spec fn config_matches(c: Config, vars: Seq<(Seq<char>, Seq<char>)>) -> bool {
    &&& text_setting(vars, DATABASE_URL_KEY@) == Ok::<Seq<char>, ConfigErrorView>(c.database_url@)
    &&& text_setting(vars, SERVER_HOST_KEY@) == Ok::<Seq<char>, ConfigErrorView>(c.server.host@)
    &&& int_setting(vars, SERVER_PORT_KEY@) == Ok::<i32, ConfigErrorView>(c.server.port)
    &&& int_setting(vars, PROOF_RESULTS_KEY@) == Ok::<i32, ConfigErrorView>(c.proof.results)
    &&& int_setting(vars, PROOF_DEMO_KEY@) == Ok::<i32, ConfigErrorView>(c.proof.demo)
    &&& int_setting(vars, PROOF_VIDEO_KEY@) == Ok::<i32, ConfigErrorView>(c.proof.video)
    &&& text_setting(vars, BACKBLAZE_KEYID_KEY@) == Ok::<Seq<char>, ConfigErrorView>(
        c.backblaze.keyid@,
    )
    &&& text_setting(vars, BACKBLAZE_KEY_KEY@) == Ok::<Seq<char>, ConfigErrorView>(
        c.backblaze.key@,
    )
    &&& text_setting(vars, BACKBLAZE_BUCKET_KEY@) == Ok::<Seq<char>, ConfigErrorView>(
        c.backblaze.bucket@,
    )
}

fn chars_match_exec(a: char, b: char) -> (r: bool)
    ensures
        r == chars_match(a, b),
{
    a == b || ('A' <= a && a <= 'Z' && (a as u32) + 32 == b as u32) || ('A' <= b && b <= 'Z' && (
    b as u32) + 32 == a as u32)
}

fn names_match_exec(a: &str, b: &str) -> (r: bool)
    ensures
        r == names_match(a@, b@),
{
    let n = a.unicode_len();
    if n != b.unicode_len() {
        return false;
    }
    let mut i: usize = 0;
    while i < n
        invariant
            n == a@.len(),
            n == b@.len(),
            0 <= i <= n,
            forall|j: int| 0 <= j < i ==> #[trigger] chars_match(a@[j], b@[j]),
        decreases n - i,
    {
        if !chars_match_exec(a.get_char(i), b.get_char(i)) {
            return false;
        }
        i = i + 1;
    }
    true
}

/// The value of the first variable in `vars` whose name matches `key`.
fn env_lookup(vars: &Vec<(String, String)>, key: &str) -> (r: Option<String>)
    ensures
        r is Some <==> env_value(vars_view(vars@), key@) is Some,
        r is Some ==> r.unwrap()@ == env_value(vars_view(vars@), key@).unwrap(),
{
    let ghost vv = vars_view(vars@);
    let mut i: usize = 0;
    assert(vv.subrange(0, vv.len() as int) =~= vv);
    while i < vars.len()
        invariant
            vv == vars_view(vars@),
            0 <= i <= vars@.len(),
            env_value(vv, key@) == env_value(vv.subrange(i as int, vv.len() as int), key@),
        decreases vars@.len() - i,
    {
        let ghost rest = vv.subrange(i as int, vv.len() as int);
        assert(rest[0] == vv[i as int]);
        assert(rest.drop_first() =~= vv.subrange(i + 1, vv.len() as int));
        if names_match_exec(vars[i].0.as_str(), key) {
            return Some(vars[i].1.clone());
        }
        i = i + 1;
    }
    None
}

proof fn lemma_digits_value_nonneg(s: Seq<char>)
    requires
        forall|i: int| 0 <= i < s.len() ==> #[trigger] is_digit(s[i]),
    ensures
        digits_value(s) >= 0,
    decreases s.len(),
{
    if s.len() > 0 {
        assert(is_digit(s[s.len() - 1]));
        assert forall|i: int| 0 <= i < s.drop_last().len() implies #[trigger] is_digit(
            s.drop_last()[i],
        ) by {
            assert(is_digit(s[i]));
        }
        lemma_digits_value_nonneg(s.drop_last());
    }
}

/// Digit values are cut off here: anything at least this large is out of range.
const DIGITS_CAP: i64 = 2147483649;

/// A decimal integer with an optional sign, if it fits in an `i32`.
pub fn parse_i32(s: &str) -> (r: Option<i32>)
    ensures
        r == i32_value(s@),
{
    let n = s.unicode_len();
    if n == 0 {
        return None;
    }
    let c0 = s.get_char(0);
    let neg = c0 == '-';
    let start: usize = if c0 == '-' || c0 == '+' {
        1
    } else {
        0
    };
    if start == n {
        assert(!all_digits(s@.drop_first()));
        assert(!is_digit(s@[0]));
        return None;
    }
    let ghost digits = s@.subrange(start as int, n as int);
    let mut v: i64 = 0;
    let mut i: usize = start;
    assert(s@.subrange(start as int, start as int) =~= Seq::<char>::empty());
    while i < n
        invariant
            n == s@.len(),
            n > 0,
            c0 == s@[0],
            neg == (c0 == '-'),
            start == (if c0 == '-' || c0 == '+' {
                1usize
            } else {
                0usize
            }),
            start <= i <= n,
            digits == s@.subrange(start as int, n as int),
            forall|j: int| start <= j < i ==> #[trigger] is_digit(s@[j]),
            digits_value(s@.subrange(start as int, i as int)) >= 0,
            v == (if digits_value(s@.subrange(start as int, i as int)) < DIGITS_CAP {
                digits_value(s@.subrange(start as int, i as int))
            } else {
                DIGITS_CAP as int
            }),
        decreases n - i,
    {
        let c = s.get_char(i);
        if !('0' as u32 <= c as u32 && c as u32 <= '9' as u32) {
            assert(!is_digit(digits[i - start]));
            assert(!all_digits(digits));
            if start == 1 {
                assert(s@.drop_first() =~= digits);
            } else {
                assert(s@ =~= digits);
            }
            return None;
        }
        let d = (c as u32 - '0' as u32) as i64;
        let ghost x = digits_value(s@.subrange(start as int, i as int));
        assert(s@.subrange(start as int, i + 1).drop_last() =~= s@.subrange(start as int, i as int));
        let next = v * 10 + d;
        v = if next < DIGITS_CAP {
            next
        } else {
            DIGITS_CAP
        };
        i = i + 1;
    }
    assert(s@.subrange(start as int, i as int) =~= digits);
    assert(all_digits(digits));
    if start == 1 {
        assert(s@.drop_first() =~= digits);
    } else {
        assert(s@ =~= digits);
    }
    if neg {
        if v <= 2147483648 {
            Some((-v) as i32)
        } else {
            None
        }
    } else {
        if v <= 2147483647 {
            Some(v as i32)
        } else {
            None
        }
    }
}

fn text_var(vars: &Vec<(String, String)>, key: &str) -> (r: Result<String, ConfigError>)
    ensures
        match r {
            Ok(v) => text_setting(vars_view(vars@), key@) == Ok::<Seq<char>, ConfigErrorView>(v@),
            Err(e) => text_setting(vars_view(vars@), key@) == Err::<Seq<char>, ConfigErrorView>(e@),
        },
{
    match env_lookup(vars, key) {
        Some(v) => Ok(v),
        None => Err(ConfigError::Missing(String::from_str(key))),
    }
}

fn int_var(vars: &Vec<(String, String)>, key: &str) -> (r: Result<i32, ConfigError>)
    ensures
        match r {
            Ok(v) => int_setting(vars_view(vars@), key@) == Ok::<i32, ConfigErrorView>(v),
            Err(e) => int_setting(vars_view(vars@), key@) == Err::<i32, ConfigErrorView>(e@),
        },
{
    match env_lookup(vars, key) {
        Some(v) => match parse_i32(v.as_str()) {
            Some(n) => Ok(n),
            None => Err(ConfigError::Invalid(String::from_str(key))),
        },
        None => Err(ConfigError::Missing(String::from_str(key))),
    }
}

impl Config {
    /// Reads the configuration from environment variables, given as name and
    /// value pairs; names are matched without regard to ASCII case. Fails on
    /// the first setting, in field order, that is missing or not an integer.
    pub fn from_env(vars: &Vec<(String, String)>) -> (r: Result<Config, ConfigError>)
        ensures
            match r {
                Ok(c) => config_error(vars_view(vars@)) is None && config_matches(
                    c,
                    vars_view(vars@),
                ),
                Err(e) => config_error(vars_view(vars@)) == Some(e@),
            },
    {
        let database_url = match text_var(vars, DATABASE_URL_KEY) {
            Ok(v) => v,
            Err(e) => return Err(e),
        };
        let host = match text_var(vars, SERVER_HOST_KEY) {
            Ok(v) => v,
            Err(e) => return Err(e),
        };
        let port = match int_var(vars, SERVER_PORT_KEY) {
            Ok(v) => v,
            Err(e) => return Err(e),
        };
        let results = match int_var(vars, PROOF_RESULTS_KEY) {
            Ok(v) => v,
            Err(e) => return Err(e),
        };
        let demo = match int_var(vars, PROOF_DEMO_KEY) {
            Ok(v) => v,
            Err(e) => return Err(e),
        };
        let video = match int_var(vars, PROOF_VIDEO_KEY) {
            Ok(v) => v,
            Err(e) => return Err(e),
        };
        let keyid = match text_var(vars, BACKBLAZE_KEYID_KEY) {
            Ok(v) => v,
            Err(e) => return Err(e),
        };
        let key = match text_var(vars, BACKBLAZE_KEY_KEY) {
            Ok(v) => v,
            Err(e) => return Err(e),
        };
        let bucket = match text_var(vars, BACKBLAZE_BUCKET_KEY) {
            Ok(v) => v,
            Err(e) => return Err(e),
        };
        Ok(
            Config {
                database_url,
                server: ServerConfig { host, port },
                proof: ProofConfig { results, demo, video },
                backblaze: BackBlazeConfig { keyid, key, bucket },
            },
        )
    }
}

} // verus!
