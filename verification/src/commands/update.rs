//! Checking for a newer release, and whether and how cutler can update
//! itself.
use vstd::prelude::*;
use crate::domains::opt_view;
use crate::text::{chars_of, owned, push_str_chars, string_of, str_eq};
use crate::value::{value_get, value_view, vget, ConfigValue, ValueView};
use crate::version::{compare_versions, parse_version, semver_order, semver_valid};

verus! {

/// Checks whether a newer release exists.
pub struct CheckUpdateCmd;

/// Updates the cutler binary in place.
pub struct SelfUpdateCmd {
    /// Do not install/update manpage during the update procedure.
    pub no_man: bool,
}

/// What comparing the running version with the latest release finds.
pub enum UpdateVerdict {
    /// A newer release exists.
    Available,
    /// The running version is the latest.
    Latest,
    /// The running version is ahead of the latest release.
    Ahead,
}

/// Why the check failed.
pub enum UpdateError {
    /// The reply held no version.
    MissingLatest,
    /// "Could not parse current version"
    BadCurrent,
    /// "Could not parse latest version"
    BadLatest,
}

/// What an order of the running version against the latest means.
pub fn verdict_of(order: i8) -> (r: UpdateVerdict)
    ensures
        order < 0 ==> r is Available,
        order == 0 ==> r is Latest,
        order > 0 ==> r is Ahead,
{
    if order < 0 {
        UpdateVerdict::Available
    } else if order == 0 {
        UpdateVerdict::Latest
    } else {
        UpdateVerdict::Ahead
    }
}

/// Compares the running version with the latest, both as `semver` reads them.
pub fn check_versions(current: &str, latest: &str) -> (r: Result<UpdateVerdict, UpdateError>)
    ensures
        !semver_valid(current@) ==> r matches Err(UpdateError::BadCurrent),
        semver_valid(current@) && !semver_valid(latest@) ==> r matches Err(UpdateError::BadLatest),
        semver_valid(current@) && semver_valid(latest@) ==> (r matches Ok(v) && (
            (semver_order(current@, latest@) < 0 ==> v is Available)
            && (semver_order(current@, latest@) == 0 ==> v is Latest)
            && (semver_order(current@, latest@) > 0 ==> v is Ahead))),
{
    let c = match parse_version(current) {
        Some(c) => c,
        None => return Err(UpdateError::BadCurrent),
    };
    let l = match parse_version(latest) {
        Some(l) => l,
        None => return Err(UpdateError::BadLatest),
    };
    Ok(verdict_of(compare_versions(&c, &l)))
}

/// `package.version` of a Cargo manifest, if it is a string.
pub open spec fn manifest_version(doc: ValueView) -> Option<Seq<char>> {
    match vget(doc, "package"@) {
        Some(p) => match vget(p, "version"@) {
            Some(ValueView::Text(v)) => Some(v),
            _ => None,
        },
        None => None,
    }
}

/// The latest version a released Cargo manifest names.
pub fn latest_from_manifest(doc: &ConfigValue) -> (r: Option<String>)
    ensures
        opt_view(r) == manifest_version(value_view(*doc)),
{
    match value_get(doc, "package") {
        Some(p) => match value_get(p, "version") {
            Some(ConfigValue::Text(v)) => Some(v.clone()),
            _ => None,
        },
        None => None,
    }
}

/// Checks the running version against a released Cargo manifest.
pub fn run_check_update(current: &str, manifest: &ConfigValue) -> (r: Result<UpdateVerdict, UpdateError>)
    ensures
        manifest_version(value_view(*manifest)) is None ==> r matches Err(UpdateError::MissingLatest),
        manifest_version(value_view(*manifest)) matches Some(latest) ==> (
            (!semver_valid(current@) ==> r matches Err(UpdateError::BadCurrent))
            && (semver_valid(current@) && !semver_valid(latest) ==> r matches Err(UpdateError::BadLatest))
            && (semver_valid(current@) && semver_valid(latest) ==> (r matches Ok(v) && (
                (semver_order(current@, latest) < 0 ==> v is Available)
                && (semver_order(current@, latest) == 0 ==> v is Latest)
                && (semver_order(current@, latest) > 0 ==> v is Ahead))))),
{
    match latest_from_manifest(manifest) {
        Some(latest) => check_versions(current, latest.as_str()),
        None => Err(UpdateError::MissingLatest),
    }
}

#[verifier::external_type_specification]
#[verifier::external_body]
pub struct ExJsonValue(serde_json::Value);

/// A JSON document and the text it was parsed from. Its fields are
/// private, so that only [`parse_json`] builds one: the value is always the
/// one `serde_json` reads from the text.
pub struct JsonDoc {
    text: String,
    value: serde_json::Value,
}

impl View for JsonDoc {
    type V = Seq<char>;

    /// The text the document was parsed from.
    closed spec fn view(&self) -> Seq<char> {
        self.text@
    }
}

/// Whether `serde_json` reads a text as a JSON value.
pub uninterp spec fn json_valid(text: Seq<char>) -> bool;

/// The string at `key` of the JSON object a text holds, if there is one.
pub uninterp spec fn json_string_at(text: Seq<char>, key: Seq<char>) -> Option<Seq<char>>;

/// `serde_json::from_str` into a `serde_json::Value`. Claimed: success
/// depends on the text alone, and the document keeps its text.
#[verifier::external_body]
fn parse_json(text: &str) -> (r: Option<JsonDoc>)
    ensures
        r is Some <==> json_valid(text@),
        r matches Some(d) ==> d@ == text@,
{
    match serde_json::from_str::<serde_json::Value>(text) {
        Ok(value) => Some(JsonDoc { text: text.to_string(), value }),
        Err(_) => None,
    }
}

/// `serde_json::Value::get` with a key, then `as_str`. Claimed: the result
/// depends on the document's text and the key alone (named [`json_string_at`]).
#[verifier::external_body]
fn json_string_field(doc: &JsonDoc, key: &str) -> (r: Option<String>)
    ensures
        opt_view(r) == json_string_at(doc@, key@),
{
    match doc.value.get(key) {
        Some(v) => match v.as_str() {
            Some(s) => Some(s.to_string()),
            None => None,
        },
        None => None,
    }
}

/// `s` without its leading `v`s.
pub open spec fn trim_vs(s: Seq<char>) -> Seq<char>
    decreases s.len(),
{
    if s.len() > 0 && s[0] == 'v' {
        trim_vs(s.drop_first())
    } else {
        s
    }
}

/// The latest release's version from the fields of the release: its
/// `tag_name`, else its `name`, without leading `v`s.
pub open spec fn release_version(tag_name: Option<Seq<char>>, name: Option<Seq<char>>) -> Option<Seq<char>> {
    match tag_name {
        Some(t) => Some(trim_vs(t)),
        None => match name {
            Some(n) => Some(trim_vs(n)),
            None => None,
        },
    }
}

fn trim_leading_vs(s: &String) -> (r: String)
    ensures
        r@ == trim_vs(s@),
{
    let v = chars_of(s.as_str());
    let n = v.len();
    let mut i: usize = 0;
    assert(v@.subrange(0, n as int) =~= v@);
    while i < n && v[i] == 'v'
        invariant
            i <= n,
            n == v.len(),
            v@ == s@,
            trim_vs(s@) == trim_vs(v@.subrange(i as int, n as int)),
        decreases n - i,
    {
        assert(v@.subrange(i as int, n as int).drop_first() =~= v@.subrange(i + 1, n as int));
        i = i + 1;
    }
    let r = crate::text::skip_chars(&v, i);
    assert(r@ =~= v@.subrange(i as int, n as int));
    string_of(&r)
}

/// Picks the latest version from a release's `tag_name` and `name`.
pub fn pick_release_version(tag_name: Option<String>, name: Option<String>) -> (r: Option<String>)
    ensures
        opt_view(r) == release_version(opt_view(tag_name), opt_view(name)),
{
    match tag_name {
        Some(t) => Some(trim_leading_vs(&t)),
        None => match name {
            Some(n) => Some(trim_leading_vs(&n)),
            None => None,
        },
    }
}

/// Why reading the release failed.
pub enum ReleaseError {
    /// "Failed to parse GitHub API response"
    BadJson,
    /// "Could not find latest version tag in GitHub API response"
    NoTag,
}

/// The latest version a release reply (the JSON text of the GitHub API)
/// names.
pub fn latest_release_version(body: &str) -> (r: Result<String, ReleaseError>)
    ensures
        !json_valid(body@) ==> r matches Err(ReleaseError::BadJson),
        json_valid(body@) ==> match release_version(json_string_at(body@, "tag_name"@), json_string_at(body@, "name"@)) {
            Some(v) => r matches Ok(s) && s@ == v,
            None => r matches Err(ReleaseError::NoTag),
        },
{
    let doc = match parse_json(body) {
        Some(d) => d,
        None => return Err(ReleaseError::BadJson),
    };
    let tag = json_string_field(&doc, "tag_name");
    let name = json_string_field(&doc, "name");
    match pick_release_version(tag, name) {
        Some(v) => Ok(v),
        None => Err(ReleaseError::NoTag),
    }
}

/// How cutler was installed, as far as self-update cares.
pub enum InstallKind {
    /// Homebrew, Cargo or mise manage the binary.
    Managed,
    /// At the usual manual location.
    Manual,
    /// At some other path.
    Custom,
}

/// Where `cargo install` puts the binary: under `$CARGO_HOME`, else under
/// `$HOME/.cargo`, else under the home directory; empty when none is known.
pub open spec fn cargo_bin_of(cargo_home: Option<Seq<char>>, home: Option<Seq<char>>, home_dir: Option<Seq<char>>) -> Seq<char> {
    match cargo_home {
        Some(c) => c + "/bin/cutler"@,
        None => match home {
            Some(h) => h + "/.cargo/bin/cutler"@,
            None => match home_dir {
                Some(h) => h + "/.cargo/bin/cutler"@,
                None => Seq::empty(),
            },
        },
    }
}

pub fn cargo_bin_path(cargo_home: Option<String>, home: Option<String>, home_dir: Option<String>) -> (r: String)
    ensures
        r@ == cargo_bin_of(opt_view(cargo_home), opt_view(home), opt_view(home_dir)),
{
    let mut out: Vec<char> = Vec::new();
    match cargo_home {
        Some(c) => {
            push_str_chars(&mut out, c.as_str());
            push_str_chars(&mut out, "/bin/cutler");
        },
        None => match home {
            Some(h) => {
                push_str_chars(&mut out, h.as_str());
                push_str_chars(&mut out, "/.cargo/bin/cutler");
            },
            None => match home_dir {
                Some(h) => {
                    push_str_chars(&mut out, h.as_str());
                    push_str_chars(&mut out, "/.cargo/bin/cutler");
                },
                None => {},
            },
        },
    }
    string_of(&out)
}

/// How the binary at `exe` was installed, given where Cargo would put it.
pub open spec fn install_kind_of(exe: Seq<char>, cargo_bin: Seq<char>) -> InstallKind {
    if exe == "/opt/homebrew/bin/cutler"@ || exe == cargo_bin || crate::text::contains_seq(exe, ".local/share/mise/installs/cargo-cutler"@) {
        InstallKind::Managed
    } else if exe == "/usr/local/bin/cutler"@ {
        InstallKind::Manual
    } else {
        InstallKind::Custom
    }
}

pub fn install_kind(exe: &str, cargo_bin: &str) -> (r: InstallKind)
    ensures
        r == install_kind_of(exe@, cargo_bin@),
{
    let e = chars_of(exe);
    let mise = chars_of(".local/share/mise/installs/cargo-cutler");
    if str_eq(exe, "/opt/homebrew/bin/cutler") || str_eq(exe, cargo_bin) || crate::text::has_infix(&e, &mise) {
        InstallKind::Managed
    } else if str_eq(exe, "/usr/local/bin/cutler") {
        InstallKind::Manual
    } else {
        InstallKind::Custom
    }
}

/// The release target of an architecture, if self-update supports it.
pub open spec fn target_of(arch: Seq<char>) -> Option<Seq<char>> {
    if arch == "x86_64"@ || arch == "x86"@ {
        Some("darwin-x86_64"@)
    } else if arch == "aarch64"@ {
        Some("darwin-arm64"@)
    } else {
        None
    }
}

pub fn update_target(arch: &str) -> (r: Option<&'static str>)
    ensures
        match r {
            Some(t) => target_of(arch@) == Some(t@),
            None => target_of(arch@) is None,
        },
{
    if str_eq(arch, "x86_64") || str_eq(arch, "x86") {
        Some("darwin-x86_64")
    } else if str_eq(arch, "aarch64") {
        Some("darwin-arm64")
    } else {
        None
    }
}

} // verus!
