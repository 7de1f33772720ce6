use vstd::prelude::*;

verus! {

#[verifier::external_type_specification]
#[verifier::external_body]
pub struct ExIoError(std::io::Error);

#[verifier::external_type_specification]
#[verifier::external_body]
pub struct ExYamlError(serde_yaml::Error);

/// Why a rotor file could not be loaded.
#[derive(Debug)]
pub enum YamlLoadError {
    /// The file could not be read.
    Io(std::io::Error),
    /// The text is not valid YAML for the rotor schema.
    Parse(serde_yaml::Error),
    /// A required field was missing (dotted YAML path, e.g. "rotor.n_blades").
    MissingField(String),
    /// A value had the wrong shape.
    InvalidValue { field: String, reason: String },
}

/// Calls `std::io::Error`'s `Display`; the text is left unsaid.
#[verifier::external_body]
fn io_error_text(e: &std::io::Error) -> (r: String) {
    format!("{}", e)
}

/// Calls `serde_yaml::Error`'s `Display`; the text is left unsaid.
#[verifier::external_body]
fn yaml_error_text(e: &serde_yaml::Error) -> (r: String) {
    format!("{}", e)
}

/// One line of error text: `prefix` followed by `detail`.
pub fn error_line(prefix: &str, detail: &str) -> (r: String)
    ensures
        r@ == prefix@ + detail@,
{
    let mut m = prefix.to_owned();
    m.append(detail);
    m
}

impl YamlLoadError {
    /// The error as one line of text: a fixed prefix per kind, then the
    /// detail (the field path, the reason, or the underlying error's text).
    pub fn message(&self) -> (r: String)
        ensures
            self matches YamlLoadError::MissingField(p) ==> r@ == "missing required field: "@
                + p@,
            self matches YamlLoadError::InvalidValue { field, reason } ==> r@
                == "invalid value for "@ + field@ + ": "@ + reason@,
            self is Io ==> exists|t: Seq<char>| r@ == "I/O error: "@ + t,
            self is Parse ==> exists|t: Seq<char>| r@ == "YAML parse error: "@ + t,
    {
        match self {
            YamlLoadError::Io(e) => {
                let t = io_error_text(e);
                error_line("I/O error: ", t.as_str())
            },
            YamlLoadError::Parse(e) => {
                let t = yaml_error_text(e);
                error_line("YAML parse error: ", t.as_str())
            },
            YamlLoadError::MissingField(p) => error_line("missing required field: ", p.as_str()),
            YamlLoadError::InvalidValue { field, reason } => {
                let detail = error_line(field.as_str(), ": ");
                let detail = error_line(detail.as_str(), reason.as_str());
                let r = error_line("invalid value for ", detail.as_str());
                proof {
                    assert(r@ =~= "invalid value for "@ + field@ + ": "@ + reason@);
                }
                r
            },
        }
    }
}

/// A required value: present gives it, absent is the missing-field error
/// naming `field`.
pub fn req<T>(value: Option<T>, field: &str) -> (r: Result<T, YamlLoadError>)
    ensures
        match value {
            Some(v) => r matches Ok(w) && w == v,
            None => r matches Err(YamlLoadError::MissingField(p)) && p@ == field@,
        },
{
    match value {
        Some(v) => Ok(v),
        None => Err(YamlLoadError::MissingField(String::from_str(field))),
    }
}

/// An ASCII letter.
pub open spec fn ascii_letter(c: char) -> bool {
    ('a' <= c && c <= 'z') || ('A' <= c && c <= 'Z')
}

/// Relative on every platform, with neither a root nor a drive prefix: not
/// empty, does not start with a separator, and does not start with a drive
/// letter and a colon.
pub open spec fn plainly_relative(p: Seq<char>) -> bool {
    &&& p.len() > 0
    &&& p[0] != '/' && p[0] != '\\'
    &&& !(p.len() >= 2 && p[1] == ':' && ascii_letter(p[0]))
}

/// A base directory that is not a Windows verbatim or UNC path (those start
/// with a backslash), so joining onto it does not rewrite the joined path.
pub open spec fn plain_base(b: Seq<char>) -> bool {
    b.len() == 0 || b[0] != '\\'
}

/// `w` ends with `rel`.
pub open spec fn ends_with(w: Seq<char>, rel: Seq<char>) -> bool {
    &&& w.len() >= rel.len()
    &&& w.skip(w.len() - rel.len()) == rel
}

/// `w` is `base` followed by `rel`, with at most one path separator (`/`
/// or `\\`) put between them.
pub open spec fn joined_path(w: Seq<char>, base: Seq<char>, rel: Seq<char>) -> bool {
    ||| w == base + rel
    ||| w == base + seq!['/'] + rel
    ||| w == base + seq!['\\'] + rel
}

/// Calls `Path::is_absolute` on the path `p`. Stated: the empty path and a
/// plainly relative path are not absolute. Which other paths are absolute
/// depends on the platform and is left unsaid.
#[verifier::external_body]
fn path_is_absolute(p: &str) -> (r: bool)
    ensures
        p@.len() == 0 ==> !r,
        plainly_relative(p@) ==> !r,
{
    std::path::Path::new(p).is_absolute()
}

/// Calls `Path::join` of `base` with `rel` and renders the path as text.
/// Stated, for a base that is not a Windows verbatim/UNC path: the result
/// ends with `rel` (an absolute or prefixed `rel` replaces the base, any
/// other is appended to it). A plainly relative `rel` is adjoined to the
/// base: the result is the base, at most one separator, then `rel`. Joined
/// onto an empty base, any `rel` comes back as it is. Whether a separator is put in, and which one,
/// depends on the platform and on how the base ends, and is left unsaid;
/// so is how much of the base a rooted or prefixed `rel` keeps.
#[verifier::external_body]
fn path_join(base: &str, rel: &str) -> (r: String)
    ensures
        plain_base(base@) ==> ends_with(r@, rel@),
        plain_base(base@) && plainly_relative(rel@) ==> joined_path(r@, base@, rel@),
        base@.len() == 0 ==> r@ == rel@,
{
    std::path::Path::new(base).join(rel).to_string_lossy().into_owned()
}

/// The polar-table path `v` against the base directory `base`, given
/// whether `v` is absolute: an absolute path is kept, any other is joined
/// onto the base.
pub fn resolve_against(v: String, base: &str, is_absolute: bool) -> (r: String)
    ensures
        is_absolute ==> r@ == v@,
        !is_absolute && plain_base(base@) ==> ends_with(r@, v@),
        !is_absolute && plain_base(base@) && plainly_relative(v@) ==> joined_path(
            r@,
            base@,
            v@,
        ),
        base@.len() == 0 ==> r@ == v@,
{
    if is_absolute {
        v
    } else {
        path_join(base, v.as_str())
    }
}

/// Resolves the polar-table path of a rotor file: absent stays absent; with
/// no base directory, or an absolute path, the path is kept; otherwise it is
/// joined onto the base directory.
pub fn resolve_polar_csv(value: Option<String>, base_dir: Option<&str>) -> (r: Option<String>)
    ensures
        match (value, base_dir) {
            (None, _) => r is None,
            (Some(v), None) => r == Some(v),
            (Some(v), Some(b)) => r matches Some(w) && (plain_base(b@) ==> ends_with(w@, v@)) && (
            plain_base(b@) && plainly_relative(v@) ==> joined_path(w@, b@, v@)) && (b@.len() == 0
                ==> w@ == v@),
        },
{
    let v = match value {
        Some(v) => v,
        None => return None,
    };
    match base_dir {
        None => Some(v),
        Some(b) => {
            let abs = path_is_absolute(v.as_str());
            let ghost vv = v@;
            let w = resolve_against(v, b, abs);
            proof {
                assert(vv.skip(0) =~= vv);
            }
            Some(w)
        },
    }
}

} // verus!
