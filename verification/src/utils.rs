//! Shared utilities: the crate's error type and small string helpers.

use vstd::prelude::*;

verus! {

/// Specification-level shape of an [`Error`].
pub enum ErrSpec {
    /// A general error with a message
    Message(Seq<char>),
    /// A file could not be read: the path and the cause
    FileRead(Seq<char>, Seq<char>),
    /// A file could not be written: the path and the cause
    FileWrite(Seq<char>, Seq<char>),
    /// Reading the user's confirmation input failed
    GetUserInput(Seq<char>),
    /// A document could not be parsed, or a required field was missing
    TomlParse(Seq<char>),
    /// Rendering a template failed: the template name and the engine's diagnostic
    RenderTemplate(Seq<char>, Seq<char>),
    /// A variables document cannot be merged
    InvalidVars,
    /// Moving a file to the trash failed
    MoveFileToTrash(Seq<char>),
}

impl ErrSpec {
    /// The single diagnostic string that [`Error::message`] returns.
    pub open spec fn message(self) -> Seq<char> {
        match self {
            ErrSpec::Message(s) => s,
            ErrSpec::FileRead(p, c) => p + ": "@ + c,
            ErrSpec::FileWrite(p, c) => p + ": "@ + c,
            ErrSpec::GetUserInput(c) => c,
            ErrSpec::TomlParse(m) => m,
            ErrSpec::RenderTemplate(t, r) => t + ": "@ + r,
            ErrSpec::InvalidVars => "invalid vars"@,
            ErrSpec::MoveFileToTrash(c) => c,
        }
    }
}

/// All the ways an operation in this crate can fail.
#[derive(Debug)]
pub enum Error {
    /// A general error with a message
    Message(String),
    /// A file could not be read: the path and the cause
    FileRead(String, String),
    /// A file could not be written: the path and the cause
    FileWrite(String, String),
    /// Reading the user's confirmation input failed
    GetUserInput(String),
    /// A document could not be parsed, or a required field was missing
    TomlParse(String),
    /// Rendering a template failed: the template name and the engine's diagnostic
    RenderTemplate(String, String),
    /// A variables document cannot be merged
    InvalidVars,
    /// Moving a file to the trash failed
    MoveFileToTrash(String),
}

impl View for Error {
    type V = ErrSpec;

    open spec fn view(&self) -> ErrSpec {
        match self {
            Error::Message(s) => ErrSpec::Message(s@),
            Error::FileRead(p, c) => ErrSpec::FileRead(p@, c@),
            Error::FileWrite(p, c) => ErrSpec::FileWrite(p@, c@),
            Error::GetUserInput(c) => ErrSpec::GetUserInput(c@),
            Error::TomlParse(m) => ErrSpec::TomlParse(m@),
            Error::RenderTemplate(t, r) => ErrSpec::RenderTemplate(t@, r@),
            Error::InvalidVars => ErrSpec::InvalidVars,
            Error::MoveFileToTrash(c) => ErrSpec::MoveFileToTrash(c@),
        }
    }
}

impl Error {
    /// A single diagnostic string describing the error.
    pub fn message(&self) -> (r: String)
        ensures
            r@ == self@.message(),
    {
        match self {
            Error::Message(s) => s.clone(),
            Error::FileRead(p, c) => p.clone().concat(": ").concat(c.as_str()),
            Error::FileWrite(p, c) => p.clone().concat(": ").concat(c.as_str()),
            Error::GetUserInput(c) => c.clone(),
            Error::TomlParse(m) => m.clone(),
            Error::RenderTemplate(t, r) => t.clone().concat(": ").concat(r.as_str()),
            Error::InvalidVars => String::from_str("invalid vars"),
            Error::MoveFileToTrash(c) => c.clone(),
        }
    }

    /// Whether this is a file-read error.
    pub fn is_file_read(&self) -> (r: bool)
        ensures
            r == (self@ is FileRead),
    {
        matches!(self, Error::FileRead(_, _))
    }

    /// The path and cause of a file-read error, if this is one.
    pub fn as_file_read(&self) -> (r: Option<(String, String)>)
        ensures
            match r {
                Some(pc) => self@ == ErrSpec::FileRead(pc.0@, pc.1@),
                None => !(self@ is FileRead),
            },
    {
        match self {
            Error::FileRead(p, c) => Some((p.clone(), c.clone())),
            _ => None,
        }
    }

    /// Whether this is a parse error.
    pub fn is_toml_parse(&self) -> (r: bool)
        ensures
            r == (self@ is TomlParse),
    {
        matches!(self, Error::TomlParse(_))
    }

    /// Whether this is a template-rendering error.
    pub fn is_render_template(&self) -> (r: bool)
        ensures
            r == (self@ is RenderTemplate),
    {
        matches!(self, Error::RenderTemplate(_, _))
    }

    /// The template name and diagnostic of a rendering error, if this is one.
    pub fn as_render_template(&self) -> (r: Option<(String, String)>)
        ensures
            match r {
                Some(tr) => self@ == ErrSpec::RenderTemplate(tr.0@, tr.1@),
                None => !(self@ is RenderTemplate),
            },
    {
        match self {
            Error::RenderTemplate(t, r) => Some((t.clone(), r.clone())),
            _ => None,
        }
    }
}

/// Compare two string slices by their character sequences.
pub fn str_eq(a: &str, b: &str) -> (r: bool)
    ensures
        r == (a@ == b@),
{
    let sa = String::from_str(a);
    let sb = String::from_str(b);
    sa == sb
}

/// A copy of a list of strings.
pub fn clone_strings(v: &Vec<String>) -> (r: Vec<String>)
    ensures
        r@.map_values(|s: String| s@) == v@.map_values(|s: String| s@),
{
    let mut out: Vec<String> = Vec::new();
    let mut i: usize = 0;
    while i < v.len()
        invariant
            i <= v@.len(),
            out@.len() == i,
            forall|j: int| 0 <= j < i ==> (#[trigger] out@[j])@ == v@[j]@,
        decreases v@.len() - i,
    {
        out.push(v[i].clone());
        i += 1;
    }
    proof {
        assert(out@.map_values(|s: String| s@) =~= v@.map_values(|s: String| s@));
    }
    out
}

/// What path_clean::clean returns for a given path string.
pub uninterp spec fn cleaned_of(s: Seq<char>) -> Seq<char>;

/// Relies on path_clean::clean: lexically resolves `.`, `..` and repeated
/// slashes without touching the filesystem, so the result is a function of
/// the path string alone.
#[verifier::external_body]
fn path_clean_str(s: &str) -> (r: String)
    ensures
        r@ == cleaned_of(s@),
{
    match path_clean::clean(s).into_os_string().into_string() {
        Ok(p) => p,
        Err(_) => s.to_string(),
    }
}

/// Relies on shellexpand::full: expands a leading `~` and `$VAR` references.
/// The outcome depends on the process environment, so nothing is assumed of
/// it; `None` reports a failed lookup.
#[verifier::external_body]
fn shell_expand(s: &str) -> (r: Option<String>) {
    match shellexpand::full(s) {
        Ok(p) => Some(p.into_owned()),
        Err(_) => None,
    }
}

/// Expand home-directory and environment references in a path, then clean
/// `.`, `..` and repeated slashes. The expansion step consults the process
/// environment; whatever it yields, the result is its cleaned form.
pub fn normalize_path(path: &str) -> (r: Option<String>)
    ensures
        r matches Some(p) ==> exists|e: Seq<char>| p@ == #[trigger] cleaned_of(e),
{
    match shell_expand(path) {
        Some(e) => {
            let c = path_clean_str(e.as_str());
            proof {
                assert(c@ == cleaned_of(e@));
            }
            Some(c)
        },
        None => None,
    }
}

/// Whether a path string is absolute.
pub open spec fn is_absolute_spec(s: Seq<char>) -> bool {
    s.len() > 0 && s[0] == '/'
}

/// Whether a path string starts at the filesystem root.
pub fn is_absolute(s: &str) -> (r: bool)
    ensures
        r == is_absolute_spec(s@),
{
    if s.unicode_len() == 0 {
        false
    } else {
        s.get_char(0) == '/'
    }
}

/// The join of a base directory and a relative path.
pub open spec fn join_path_spec(base: Seq<char>, p: Seq<char>) -> Seq<char> {
    if base.len() == 0 {
        p
    } else if base[base.len() - 1] == '/' {
        base + p
    } else {
        base + "/"@ + p
    }
}

/// Join a relative path onto a base directory with a single separator.
pub fn join_path(base: &str, p: &str) -> (r: String)
    ensures
        r@ == join_path_spec(base@, p@),
{
    let n = base.unicode_len();
    if n == 0 {
        String::from_str(p)
    } else {
        let mut out = String::from_str(base);
        if !(base.get_char(n - 1) == '/') {
            out.append("/");
        }
        out.append(p);
        out
    }
}

/// The index of the last `/` in a path, or -1 when there is none.
pub open spec fn last_slash(s: Seq<char>) -> int
    decreases s.len(),
{
    if s.len() == 0 {
        -1
    } else if s[s.len() - 1] == '/' {
        s.len() - 1
    } else {
        last_slash(s.drop_last())
    }
}

/// The parent directory of a path string: everything before the last `/`,
/// the root for a path directly under it, or empty when there is no `/`.
pub open spec fn parent_dir_spec(s: Seq<char>) -> Seq<char> {
    let i = last_slash(s);
    if i < 0 {
        Seq::empty()
    } else if i == 0 {
        "/"@
    } else {
        s.take(i)
    }
}

/// The parent directory of a path string.
pub fn parent_dir(s: &str) -> (r: String)
    ensures
        r@ == parent_dir_spec(s@),
{
    let n = s.unicode_len();
    let mut last: Option<usize> = None;
    let mut j: usize = 0;
    proof {
        assert(s@.take(0) =~= Seq::<char>::empty());
    }
    while j < n
        invariant
            j <= n,
            n == s@.len(),
            match last {
                None => last_slash(s@.take(j as int)) == -1,
                Some(k) => k < j && last_slash(s@.take(j as int)) == k,
            },
        decreases n - j,
    {
        proof {
            assert(s@.take(j + 1).drop_last() =~= s@.take(j as int));
            assert(s@.take(j + 1)[j as int] == s@[j as int]);
        }
        if s.get_char(j) == '/' {
            last = Some(j);
        }
        j = j + 1;
    }
    proof {
        assert(s@.take(n as int) =~= s@);
    }
    match last {
        None => String::new(),
        Some(k) => {
            if k == 0 {
                String::from_str("/")
            } else {
                let r = s.substring_char(0, k);
                proof {
                    assert(r@ =~= s@.take(k as int));
                }
                String::from_str(r)
            }
        },
    }
}

} // verus!
