//! Settings read from the environment. The caller hands over the environment as
//! name/value pairs.

use vstd::prelude::*;
use vstd::string::StringExecFns;

use crate::text::{chars_of, chars_start_with, str_eq, string_of};
use crate::validate::opt_view;

verus! {

pub open spec fn env_view(env: Seq<(String, String)>) -> Seq<(Seq<char>, Seq<char>)> {
    env.map_values(|p: (String, String)| (p.0@, p.1@))
}

/// The value of the first variable called `name`.
pub open spec fn env_lookup(env: Seq<(Seq<char>, Seq<char>)>, name: Seq<char>) -> Option<Seq<char>>
    decreases env.len(),
{
    if env.len() == 0 {
        None
    } else if env[0].0 == name {
        Some(env[0].1)
    } else {
        env_lookup(env.drop_first(), name)
    }
}

/// A variable that is set and not empty.
pub open spec fn var_spec(env: Seq<(Seq<char>, Seq<char>)>, name: Seq<char>) -> Option<Seq<char>> {
    match env_lookup(env, name) {
        Some(v) => if v.len() > 0 {
            Some(v)
        } else {
            None
        },
        None => None,
    }
}

/// A flag is on when the variable is `1`, `true` or `yes`.
pub open spec fn flag_spec(env: Seq<(Seq<char>, Seq<char>)>, name: Seq<char>) -> bool {
    match var_spec(env, name) {
        Some(v) => v == "1"@ || v == "true"@ || v == "yes"@,
        None => false,
    }
}

pub open spec fn or_default(o: Option<Seq<char>>, d: Seq<char>) -> Seq<char> {
    match o {
        Some(v) => v,
        None => d,
    }
}

/// `s` without its trailing `/` characters.
pub open spec fn trim_end_slashes(s: Seq<char>) -> Seq<char>
    decreases s.len(),
{
    if s.len() > 0 && s.last() == '/' {
        trim_end_slashes(s.drop_last())
    } else {
        s
    }
}

/// What `Path::new(dir).join(name)` gives, as text.
pub uninterp spec fn path_joined(dir: Seq<char>, name: Seq<char>) -> Seq<char>;

/// `Path::new(dir).join(name)`, as text. Trusted: the result is named `path_joined` of the
/// two texts.
#[verifier::external_body]
fn join_path(dir: &str, name: &str) -> (r: String)
    ensures
        r@ == path_joined(dir@, name@),
{
    std::path::Path::new(dir).join(name).to_string_lossy().into_owned()
}

#[derive(Debug)]
pub struct ConfigError {
    pub message: String,
}

#[derive(Debug)]
pub struct Config {
    pub bind_addr: String,
    pub base_url: String,
    pub database_path: String,
    pub catalog_path: String,
    /// Contains `images/`.
    pub static_dir: String,
    /// The built order form (the single-page app).
    pub frontend_dir: String,
    pub stripe_secret_key: String,
    pub stripe_webhook_secret: String,
    /// Trust `X-Forwarded-For` for rate limiting (only behind a reverse proxy).
    pub trust_proxy: bool,
    pub allow_missing_images: bool,
}

/// The value of `name`, when it is set and not empty.
pub fn var(env: &Vec<(String, String)>, name: &str) -> (r: Option<String>)
    ensures
        opt_view(r) == var_spec(env_view(env@), name@),
{
    let ghost ev = env_view(env@);
    let mut i: usize = 0;
    assert(ev.skip(0) =~= ev);
    while i < env.len()
        invariant
            i <= env.len(),
            ev == env_view(env@),
            env_lookup(ev, name@) == env_lookup(ev.skip(i as int), name@),
        decreases env.len() - i,
    {
        let ghost rest = ev.skip(i as int);
        assert(rest.drop_first() =~= ev.skip(i + 1));
        assert(rest[0] == (env@[i as int].0@, env@[i as int].1@));
        if str_eq(env[i].0.as_str(), name) {
            if env[i].1.as_str().is_empty() {
                return None;
            }
            return Some(env[i].1.clone());
        }
        i = i + 1;
    }
    assert(ev.skip(env.len() as int).len() == 0);
    None
}

fn var_or(env: &Vec<(String, String)>, name: &str, default: &str) -> (r: String)
    ensures
        r@ == or_default(var_spec(env_view(env@), name@), default@),
{
    match var(env, name) {
        Some(v) => v,
        None => String::from_str(default),
    }
}

/// Whether `name` is `1`, `true` or `yes`.
pub fn flag(env: &Vec<(String, String)>, name: &str) -> (r: bool)
    ensures
        r == flag_spec(env_view(env@), name@),
{
    match var(env, name) {
        Some(v) => str_eq(v.as_str(), "1") || str_eq(v.as_str(), "true") || str_eq(v.as_str(), "yes"),
        None => false,
    }
}

pub open spec fn missing_message(name: Seq<char>) -> Seq<char> {
    "missing required environment variable "@ + name
}

/// The value of `name`, which must be set and not empty.
pub fn required(env: &Vec<(String, String)>, name: &str) -> (r: Result<String, ConfigError>)
    ensures
        match r {
            Ok(v) => var_spec(env_view(env@), name@) == Some(v@),
            Err(e) => var_spec(env_view(env@), name@) is None && e.message@ == missing_message(
                name@,
            ),
        },
{
    match var(env, name) {
        Some(v) => Ok(v),
        None => Err(ConfigError { message: crate::text::concat2("missing required environment variable ", name) }),
    }
}

fn trim_slashes(s: &String) -> (r: String)
    ensures
        r@ == trim_end_slashes(s@),
{
    let cs = chars_of(s.as_str());
    let mut n: usize = cs.len();
    assert(cs@.take(n as int) =~= cs@);
    while n > 0 && cs[n - 1] == '/'
        invariant
            n <= cs.len(),
            cs@ == s@,
            trim_end_slashes(s@) == trim_end_slashes(cs@.take(n as int)),
        decreases n,
    {
        assert(cs@.take(n as int).drop_last() =~= cs@.take(n - 1));
        n = n - 1;
    }
    let out = crate::text::slice_chars(&cs, 0, n);
    assert(out@ =~= cs@.take(n as int));
    string_of(&out)
}

fn starts_with(s: &String, prefix: &str) -> (r: bool)
    ensures
        r == (prefix@.len() <= s@.len() && s@.take(prefix@.len() as int) == prefix@),
{
    let a = chars_of(s.as_str());
    let b = chars_of(prefix);
    chars_start_with(&a, &b)
}

pub open spec fn has_prefix(s: Seq<char>, p: Seq<char>) -> bool {
    p.len() <= s.len() && s.take(p.len() as int) == p
}

/// Why the environment does not give a configuration, checked in this order, or `None`.
pub open spec fn config_problem(env: Seq<(Seq<char>, Seq<char>)>) -> Option<Seq<char>> {
    let base = trim_end_slashes(var_spec(env, "BASE_URL"@)->0);
    let key = var_spec(env, "STRIPE_SECRET_KEY"@)->0;
    if var_spec(env, "BASE_URL"@) is None {
        Some(missing_message("BASE_URL"@))
    } else if !has_prefix(base, "http://"@) && !has_prefix(base, "https://"@) {
        Some("BASE_URL must start with http:// or https://"@)
    } else if var_spec(env, "STRIPE_SECRET_KEY"@) is None {
        Some(missing_message("STRIPE_SECRET_KEY"@))
    } else if !has_prefix(key, "sk_"@) && !has_prefix(key, "rk_"@) {
        Some("STRIPE_SECRET_KEY must be a Stripe secret (sk_...) or restricted (rk_...) key"@)
    } else if var_spec(env, "STRIPE_WEBHOOK_SECRET"@) is None {
        Some(missing_message("STRIPE_WEBHOOK_SECRET"@))
    } else {
        None
    }
}

impl Config {
    /// `DATABASE_PATH`, or `./data/fundraiser.db`.
    pub fn database_path_from_env(env: &Vec<(String, String)>) -> (r: String)
        ensures
            r@ == or_default(var_spec(env_view(env@), "DATABASE_PATH"@), "./data/fundraiser.db"@),
    {
        var_or(env, "DATABASE_PATH", "./data/fundraiser.db")
    }

    /// The server's settings: `BASE_URL` (trailing `/` removed; `http://` or `https://`),
    /// `STRIPE_SECRET_KEY` (`sk_` or `rk_`) and `STRIPE_WEBHOOK_SECRET` are required, the
    /// rest have defaults.
    pub fn from_env(env: &Vec<(String, String)>) -> (r: Result<Config, ConfigError>)
        ensures
            match r {
                Err(e) => config_problem(env_view(env@)) == Some(e.message@),
                Ok(c) => {
                    let ev = env_view(env@);
                    &&& config_problem(ev) is None
                    &&& c.base_url@ == trim_end_slashes(var_spec(ev, "BASE_URL"@)->0)
                    &&& c.stripe_secret_key@ == var_spec(ev, "STRIPE_SECRET_KEY"@)->0
                    &&& c.stripe_webhook_secret@ == var_spec(ev, "STRIPE_WEBHOOK_SECRET"@)->0
                    &&& c.bind_addr@ == or_default(var_spec(ev, "BIND_ADDR"@), "127.0.0.1:8080"@)
                    &&& c.database_path@ == or_default(
                        var_spec(ev, "DATABASE_PATH"@),
                        "./data/fundraiser.db"@,
                    )
                    &&& c.catalog_path@ == or_default(var_spec(ev, "CATALOG_PATH"@), "./catalog.yaml"@)
                    &&& c.static_dir@ == or_default(var_spec(ev, "STATIC_DIR"@), "./static"@)
                    &&& c.frontend_dir@ == or_default(
                        var_spec(ev, "FRONTEND_DIR"@),
                        "./frontend/dist"@,
                    )
                    &&& c.trust_proxy == flag_spec(ev, "TRUST_PROXY"@)
                    &&& c.allow_missing_images == flag_spec(ev, "ALLOW_MISSING_IMAGES"@)
                },
            },
    {
        let base_raw = match required(env, "BASE_URL") {
            Ok(v) => v,
            Err(e) => return Err(e),
        };
        let base_url = trim_slashes(&base_raw);
        if !starts_with(&base_url, "http://") && !starts_with(&base_url, "https://") {
            return Err(ConfigError { message: String::from_str("BASE_URL must start with http:// or https://") });
        }
        let stripe_secret_key = match required(env, "STRIPE_SECRET_KEY") {
            Ok(v) => v,
            Err(e) => return Err(e),
        };
        if !starts_with(&stripe_secret_key, "sk_") && !starts_with(&stripe_secret_key, "rk_") {
            return Err(
                ConfigError {
                    message: String::from_str(
                        "STRIPE_SECRET_KEY must be a Stripe secret (sk_...) or restricted (rk_...) key",
                    ),
                },
            );
        }
        let bind_addr = var_or(env, "BIND_ADDR", "127.0.0.1:8080");
        let database_path = Config::database_path_from_env(env);
        let catalog_path = var_or(env, "CATALOG_PATH", "./catalog.yaml");
        let static_dir = var_or(env, "STATIC_DIR", "./static");
        let frontend_dir = var_or(env, "FRONTEND_DIR", "./frontend/dist");
        let stripe_webhook_secret = match required(env, "STRIPE_WEBHOOK_SECRET") {
            Ok(v) => v,
            Err(e) => return Err(e),
        };
        Ok(
            Config {
                bind_addr,
                base_url,
                database_path,
                catalog_path,
                static_dir,
                frontend_dir,
                stripe_secret_key,
                stripe_webhook_secret,
                trust_proxy: flag(env, "TRUST_PROXY"),
                allow_missing_images: flag(env, "ALLOW_MISSING_IMAGES"),
            },
        )
    }
}

/// Just what the `check-catalog` command needs (no Stripe secrets required).
#[derive(Debug)]
pub struct CatalogPaths {
    pub catalog_path: String,
    pub images_dir: String,
    pub check_images: bool,
}

impl CatalogPaths {
    /// `CATALOG_PATH` (or `./catalog.yaml`), `images` under `STATIC_DIR` (or `./static`),
    /// and image checks unless `ALLOW_MISSING_IMAGES` is on.
    pub fn from_env(env: &Vec<(String, String)>) -> (r: Self)
        ensures
            r.catalog_path@ == or_default(var_spec(env_view(env@), "CATALOG_PATH"@), "./catalog.yaml"@),
            r.images_dir@ == path_joined(
                or_default(var_spec(env_view(env@), "STATIC_DIR"@), "./static"@),
                "images"@,
            ),
            r.check_images == !flag_spec(env_view(env@), "ALLOW_MISSING_IMAGES"@),
    {
        let static_dir = var_or(env, "STATIC_DIR", "./static");
        CatalogPaths {
            catalog_path: var_or(env, "CATALOG_PATH", "./catalog.yaml"),
            images_dir: join_path(static_dir.as_str(), "images"),
            check_images: !flag(env, "ALLOW_MISSING_IMAGES"),
        }
    }
}

/// The base URL kept from `BASE_URL` never ends with `/`, so paths can be appended to it.
pub proof fn lemma_base_url_has_no_trailing_slash(s: Seq<char>)
    ensures
        trim_end_slashes(s).len() > 0 ==> trim_end_slashes(s).last() != '/',
        trim_end_slashes(s).len() <= s.len(),
    decreases s.len(),
{
    if s.len() > 0 && s.last() == '/' {
        lemma_base_url_has_no_trailing_slash(s.drop_last());
    }
}

} // verus!
