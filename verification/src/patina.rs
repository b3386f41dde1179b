//! The Patina model: a named set of variables and template-to-target file
//! records, loaded from a declarative TOML document.

use vstd::prelude::*;

use crate::patina_file::{PatinaFile, PatinaFileSpec};
use crate::utils::{ErrSpec, Error};
use crate::vars::{merge_values, obj_model, vv_model, VarValue, Vval};

verus! {

/// Specification-level shape of a [`Patina`].
pub struct PatinaSpec {
    /// The Patina's name
    pub name: Seq<char>,
    /// A short description, empty when absent
    pub description: Seq<char>,
    /// The base variables tree, absent when the document has none
    pub vars: Option<Vval>,
    /// The template-to-target records, in declaration order
    pub files: Seq<PatinaFileSpec>,
    /// The directory of the Patina's own source file
    pub base_path: Option<Seq<char>>,
}

/// A Patina describes a set of variables and templates that can be rendered
/// to files.
#[derive(Debug, PartialEq)]
pub struct Patina {
    /// The name of the Patina
    pub name: String,
    /// A short description of the Patina
    pub description: String,
    /// A tree of variables that can be used in the templates
    pub vars: Option<VarValue>,
    /// A list of files referencing templates and their target output paths
    pub files: Vec<PatinaFile>,
    /// The directory of the file this Patina was loaded from
    pub base_path: Option<String>,
}

impl View for Patina {
    type V = PatinaSpec;

    open spec fn view(&self) -> PatinaSpec {
        PatinaSpec {
            name: self.name@,
            description: self.description@,
            vars: match self.vars {
                Some(v) => Some(vv_model(v)),
                None => None,
            },
            files: self.files@.map_values(|f: PatinaFile| f@),
            base_path: match self.base_path {
                Some(b) => Some(b@),
                None => None,
            },
        }
    }
}

/// What toml::from_str returns for a given document text: a generic
/// key-value tree, or a parse diagnostic.
pub uninterp spec fn toml_tree_of(s: Seq<char>) -> Result<Vval, Seq<char>>;

/// Relies on toml::from_str: parses a TOML document into a generic key-value
/// tree (carried through serde_json::Value), or reports a parse diagnostic.
/// The outcome is a function of the document text alone.
#[verifier::external_body]
pub(crate) fn parse_toml(s: &str) -> (r: Result<VarValue, String>)
    ensures
        match r {
            Ok(v) => toml_tree_of(s@) == Ok::<Vval, Seq<char>>(v@),
            Err(e) => toml_tree_of(s@) == Err::<Vval, Seq<char>>(e@),
        },
{
    match toml::from_str::<serde_json::Value>(s) {
        Ok(v) => Ok(crate::vars::json_to_vars(&v)),
        Err(e) => Err(e.message().to_string()),
    }
}

/// The value at the first occurrence of key `k`, or `None` when absent.
pub open spec fn field_of(fs: Seq<(Seq<char>, Vval)>, k: Seq<char>) -> Option<Vval>
    decreases fs.len(),
{
    if fs.len() == 0 {
        None
    } else if fs[0].0 == k {
        Some(fs[0].1)
    } else {
        field_of(fs.drop_first(), k)
    }
}

proof fn lemma_field_of_skip(fs: Seq<(Seq<char>, Vval)>, k: Seq<char>, i: int)
    requires
        0 <= i <= fs.len(),
        forall|j: int| 0 <= j < i ==> (#[trigger] fs[j]).0 != k,
    ensures
        field_of(fs, k) == field_of(fs.skip(i), k),
    decreases i,
{
    if i > 0 {
        assert(fs.drop_first() =~= fs.skip(1));
        lemma_field_of_skip(fs.skip(1), k, i - 1);
        assert(fs.skip(1).skip(i - 1) =~= fs.skip(i));
    } else {
        assert(fs.skip(0) =~= fs);
    }
}

/// Find the first field named `k` in an object's field list.
fn find_field<'a>(fs: &'a Vec<(String, VarValue)>, k: &str) -> (r: Option<&'a VarValue>)
    ensures
        match r {
            Some(v) => field_of(obj_model(fs@), k@) == Some(vv_model(*v)),
            None => field_of(obj_model(fs@), k@) is None,
        },
{
    proof {
        crate::vars::lemma_obj_model_index(fs@);
    }
    let ghost m = obj_model(fs@);
    let mut i: usize = 0;
    while i < fs.len()
        invariant
            i <= fs@.len(),
            m == obj_model(fs@),
            m.len() == fs@.len(),
            forall|j: int| 0 <= j < fs@.len() ==> #[trigger] m[j] == (fs@[j].0@, vv_model(fs@[j].1)),
            forall|j: int| 0 <= j < i ==> (#[trigger] m[j]).0 != k@,
        decreases fs@.len() - i,
    {
        if crate::utils::str_eq(fs[i].0.as_str(), k) {
            proof {
                lemma_field_of_skip(m, k@, i as int);
                assert(m.skip(i as int)[0] == m[i as int]);
                assert(m.skip(i as int).len() > 0);
            }
            return Some(&fs[i].1);
        }
        i += 1;
    }
    proof {
        lemma_field_of_skip(m, k@, m.len() as int);
        assert(m.skip(m.len() as int) =~= Seq::<(Seq<char>, Vval)>::empty());
    }
    None
}

/// The tag strings of a `tags` array, or a diagnostic when an entry is not
/// a string.
pub open spec fn tags_of_trees(xs: Seq<Vval>) -> Result<Seq<Seq<char>>, Seq<char>>
    decreases xs.len(),
{
    if xs.len() == 0 {
        Ok(Seq::empty())
    } else {
        match xs[0] {
            Vval::Str(s) => match tags_of_trees(xs.drop_first()) {
                Ok(rest) => Ok(seq![s] + rest),
                Err(e) => Err(e),
            },
            _ => Err("invalid type for field `tags`"@),
        }
    }
}

/// The file record described by one entry of a `files` array, or the
/// diagnostic serde-style message for the first missing or ill-typed field.
pub open spec fn file_from_tree_spec(v: Vval) -> Result<PatinaFileSpec, Seq<char>> {
    match v {
        Vval::Object(fs) => match field_of(fs, "template"@) {
            None => Err("missing field `template`"@),
            Some(Vval::Str(template)) => match field_of(fs, "target"@) {
                None => Err("missing field `target`"@),
                Some(Vval::Str(target)) => match field_of(fs, "tags"@) {
                    None => Ok(PatinaFileSpec { tags: Seq::empty(), template, target }),
                    Some(Vval::Array(xs)) => match tags_of_trees(xs) {
                        Ok(tags) => Ok(PatinaFileSpec { tags, template, target }),
                        Err(e) => Err(e),
                    },
                    Some(_) => Err("invalid type for field `tags`"@),
                },
                Some(_) => Err("invalid type for field `target`"@),
            },
            Some(_) => Err("invalid type for field `template`"@),
        },
        _ => Err("invalid patina file entry"@),
    }
}

/// The file records of a `files` array, or the first entry's diagnostic.
pub open spec fn files_from_trees_spec(xs: Seq<Vval>) -> Result<Seq<PatinaFileSpec>, Seq<char>>
    decreases xs.len(),
{
    if xs.len() == 0 {
        Ok(Seq::empty())
    } else {
        match file_from_tree_spec(xs[0]) {
            Err(e) => Err(e),
            Ok(f) => match files_from_trees_spec(xs.drop_first()) {
                Ok(rest) => Ok(seq![f] + rest),
                Err(e) => Err(e),
            },
        }
    }
}

/// The Patina described by a parsed document tree, or the serde-style
/// diagnostic for the first missing or ill-typed field: `name` is required,
/// `description` defaults to empty, `vars` is free-form and optional, and
/// `files` defaults to the empty list.
pub open spec fn patina_from_tree_spec(t: Vval) -> Result<PatinaSpec, Seq<char>> {
    match t {
        Vval::Object(fs) => match field_of(fs, "name"@) {
            None => Err("missing field `name`"@),
            Some(Vval::Str(name)) => {
                let desc = field_of(fs, "description"@);
                if !(desc is None || desc matches Some(Vval::Str(_))) {
                    Err("invalid type for field `description`"@)
                } else {
                    let description = match desc {
                        Some(Vval::Str(d)) => d,
                        _ => Seq::empty(),
                    };
                    let vars = field_of(fs, "vars"@);
                    match field_of(fs, "files"@) {
                        None => Ok(
                            PatinaSpec {
                                name,
                                description,
                                vars,
                                files: Seq::empty(),
                                base_path: None,
                            },
                        ),
                        Some(Vval::Array(xs)) => match files_from_trees_spec(xs) {
                            Ok(files) => Ok(
                                PatinaSpec { name, description, vars, files, base_path: None },
                            ),
                            Err(e) => Err(e),
                        },
                        Some(_) => Err("invalid type for field `files`"@),
                    }
                }
            },
            Some(_) => Err("invalid type for field `name`"@),
        },
        _ => Err("invalid patina document"@),
    }
}

/// The tag strings of a `tags` array as owned values.
fn tags_from_trees(xs: &Vec<VarValue>) -> (r: Result<Vec<String>, Error>)
    ensures
        match r {
            Ok(tags) => tags_of_trees(crate::vars::arr_model(xs@)) == Ok::<
                Seq<Seq<char>>,
                Seq<char>,
            >(tags@.map_values(|t: String| t@)),
            Err(e) => e@ matches ErrSpec::TomlParse(m) && tags_of_trees(crate::vars::arr_model(xs@))
                == Err::<Seq<Seq<char>>, Seq<char>>(m),
        },
{
    proof {
        crate::vars::lemma_arr_model_index(xs@);
    }
    let ghost m = crate::vars::arr_model(xs@);
    let mut out: Vec<String> = Vec::new();
    let mut i: usize = 0;
    proof {
        assert(m.skip(0) =~= m);
        assert(out@.map_values(|t: String| t@) =~= Seq::<Seq<char>>::empty());
        assert forall|rest: Seq<Seq<char>>|
            Seq::<Seq<char>>::empty() + rest =~= rest by {}
    }
    while i < xs.len()
        invariant
            i <= xs@.len(),
            m == crate::vars::arr_model(xs@),
            m.len() == xs@.len(),
            forall|j: int| 0 <= j < xs@.len() ==> #[trigger] m[j] == vv_model(xs@[j]),
            tags_of_trees(m) == (match tags_of_trees(m.skip(i as int)) {
                Ok(rest) => Ok::<Seq<Seq<char>>, Seq<char>>(
                    out@.map_values(|t: String| t@) + rest,
                ),
                Err(e) => Err::<Seq<Seq<char>>, Seq<char>>(e),
            }),
        decreases xs@.len() - i,
    {
        proof {
            assert(m.skip(i as int)[0] == m[i as int]);
            assert(m.skip(i as int).drop_first() =~= m.skip(i + 1));
        }
        match &xs[i] {
            VarValue::Str(s) => {
                let ghost out0 = out@;
                out.push(s.clone());
                proof {
                    assert(out@.map_values(|t: String| t@) =~= out0.map_values(|t: String| t@)
                        + seq![s@]);
                    assert forall|rest: Seq<Seq<char>>|
                        out0.map_values(|t: String| t@) + (seq![s@] + rest) =~= out@.map_values(
                        |t: String| t@,
                    ) + rest by {}
                }
            },
            _ => {
                return Err(Error::TomlParse(String::from_str("invalid type for field `tags`")));
            },
        }
        i += 1;
    }
    proof {
        assert(m.skip(xs@.len() as int) =~= Seq::<Vval>::empty());
        assert(out@.map_values(|t: String| t@) + Seq::<Seq<char>>::empty() =~= out@.map_values(
            |t: String| t@,
        ));
    }
    Ok(out)
}

/// The file record described by one entry of a `files` array.
fn file_from_tree(v: &VarValue) -> (r: Result<PatinaFile, Error>)
    ensures
        match r {
            Ok(f) => file_from_tree_spec(v@) == Ok::<PatinaFileSpec, Seq<char>>(f@),
            Err(e) => e@ matches ErrSpec::TomlParse(m) && file_from_tree_spec(v@) == Err::<
                PatinaFileSpec,
                Seq<char>,
            >(m),
        },
{
    let fs = match v {
        VarValue::Object(fs) => fs,
        _ => {
            return Err(Error::TomlParse(String::from_str("invalid patina file entry")));
        },
    };
    let template = match find_field(fs, "template") {
        Some(VarValue::Str(s)) => s.clone(),
        Some(_) => {
            return Err(Error::TomlParse(String::from_str("invalid type for field `template`")));
        },
        None => {
            return Err(Error::TomlParse(String::from_str("missing field `template`")));
        },
    };
    let target = match find_field(fs, "target") {
        Some(VarValue::Str(s)) => s.clone(),
        Some(_) => {
            return Err(Error::TomlParse(String::from_str("invalid type for field `target`")));
        },
        None => {
            return Err(Error::TomlParse(String::from_str("missing field `target`")));
        },
    };
    let tags = match find_field(fs, "tags") {
        Some(VarValue::Array(xs)) => match tags_from_trees(xs) {
            Ok(tags) => tags,
            Err(e) => {
                return Err(e);
            },
        },
        Some(_) => {
            return Err(Error::TomlParse(String::from_str("invalid type for field `tags`")));
        },
        None => {
            let tags: Vec<String> = Vec::new();
            proof {
                assert(tags@.map_values(|t: String| t@) =~= Seq::<Seq<char>>::empty());
            }
            tags
        },
    };
    let f = PatinaFile { tags, template, target };
    Ok(f)
}

impl Patina {
    /// Build a Patina from a parsed document tree, validating the schema:
    /// a missing or ill-typed required field is rejected with a diagnostic
    /// naming it.
    pub fn from_tree(tree: &VarValue) -> (r: Result<Patina, Error>)
        ensures
            match r {
                Ok(p) => patina_from_tree_spec(tree@) == Ok::<PatinaSpec, Seq<char>>(p@),
                Err(e) => e@ matches ErrSpec::TomlParse(m) && patina_from_tree_spec(tree@) == Err::<
                    PatinaSpec,
                    Seq<char>,
                >(m),
            },
    {
        let fs = match tree {
            VarValue::Object(fs) => fs,
            _ => {
                return Err(Error::TomlParse(String::from_str("invalid patina document")));
            },
        };
        let name = match find_field(fs, "name") {
            Some(VarValue::Str(s)) => s.clone(),
            Some(_) => {
                return Err(Error::TomlParse(String::from_str("invalid type for field `name`")));
            },
            None => {
                return Err(Error::TomlParse(String::from_str("missing field `name`")));
            },
        };
        let description = match find_field(fs, "description") {
            Some(VarValue::Str(s)) => s.clone(),
            Some(_) => {
                return Err(
                    Error::TomlParse(String::from_str("invalid type for field `description`")),
                );
            },
            None => String::new(),
        };
        let vars = match find_field(fs, "vars") {
            Some(v) => Some(crate::vars::clone_var(v)),
            None => None,
        };
        let files = match find_field(fs, "files") {
            Some(VarValue::Array(xs)) => match files_from_trees(xs) {
                Ok(files) => files,
                Err(e) => {
                    return Err(e);
                },
            },
            Some(_) => {
                return Err(Error::TomlParse(String::from_str("invalid type for field `files`")));
            },
            None => {
                let files: Vec<PatinaFile> = Vec::new();
                proof {
                    assert(files@.map_values(|f: PatinaFile| f@) =~= Seq::<PatinaFileSpec>::empty());
                }
                files
            },
        };
        let p = Patina { name, description, vars, files, base_path: None };
        Ok(p)
    }

    /// Load a Patina from the text of a TOML document; `patina_path` is the
    /// path the text was read from, whose directory becomes the base for
    /// every relative path the Patina mentions.
    pub fn from_toml_str(toml_str: &str, patina_path: &str) -> (r: Result<Patina, Error>)
        ensures
            match toml_tree_of(toml_str@) {
                Err(m) => r matches Err(e) && e@ == ErrSpec::TomlParse(m),
                Ok(tree) => match patina_from_tree_spec(tree) {
                    Err(m) => r matches Err(e) && e@ == ErrSpec::TomlParse(m),
                    Ok(ps) => r matches Ok(p) && p@ == (PatinaSpec {
                        base_path: Some(crate::utils::parent_dir_spec(patina_path@)),
                        ..ps
                    }),
                },
            },
    {
        let tree = match parse_toml(toml_str) {
            Ok(tree) => tree,
            Err(m) => {
                return Err(Error::TomlParse(m));
            },
        };
        let mut p = match Patina::from_tree(&tree) {
            Ok(p) => p,
            Err(e) => {
                return Err(e);
            },
        };
        p.base_path = Some(crate::utils::parent_dir(patina_path));
        Ok(p)
    }
}

/// The views of a list of path strings.
pub open spec fn paths_view(ps: Seq<String>) -> Seq<Seq<char>> {
    ps.map_values(|p: String| p@)
}

/// The views of a list of template sources: each entry carries a resolved
/// path and what reading it yielded.
pub open spec fn sources_view(v: Seq<(String, Result<String, String>)>) -> Seq<
    (Seq<char>, Result<Seq<char>, Seq<char>>),
> {
    v.map_values(
        |s: (String, Result<String, String>)|
            (
                s.0@,
                match s.1 {
                    Ok(t) => Ok::<Seq<char>, Seq<char>>(t@),
                    Err(c) => Err::<Seq<char>, Seq<char>>(c@),
                },
            ),
    )
}

/// The views of a list of read attempts: the text read, or the cause of
/// the failure.
pub open spec fn texts_view(ts: Seq<Result<String, String>>) -> Seq<Result<Seq<char>, Seq<char>>> {
    ts.map_values(
        |t: Result<String, String>|
            match t {
                Ok(s) => Ok(s@),
                Err(c) => Err(c@),
            },
    )
}

/// One overlay step: the text of `path` is parsed and merged onto `vars`;
/// an unreadable or unparsable document is the step's error.
pub open spec fn overlay_one_spec(
    vars: Option<Vval>,
    path: Seq<char>,
    text: Result<Seq<char>, Seq<char>>,
) -> Result<Option<Vval>, ErrSpec> {
    match text {
        Err(cause) => Err(ErrSpec::FileRead(path, cause)),
        Ok(t) => match toml_tree_of(t) {
            Err(m) => Err(ErrSpec::TomlParse(m)),
            Ok(tree) => Ok(
                Some(
                    match vars {
                        None => tree,
                        Some(cur) => crate::vars::merge_model(cur, tree),
                    },
                ),
            ),
        },
    }
}

/// The overlay run over a list of variable files, in order and fail-fast:
/// the resulting variables tree, and the error that stopped the run, if
/// one did. Files after the first failure are not touched.
pub open spec fn overlay_run_spec(
    vars: Option<Vval>,
    paths: Seq<Seq<char>>,
    texts: Seq<Result<Seq<char>, Seq<char>>>,
) -> (Option<Vval>, Option<ErrSpec>)
    decreases paths.len(),
{
    if paths.len() == 0 {
        (vars, None::<ErrSpec>)
    } else {
        match overlay_one_spec(vars, paths[0], texts[0]) {
            Err(e) => (vars, Some(e)),
            Ok(v2) => overlay_run_spec(v2, paths.drop_first(), texts.drop_first()),
        }
    }
}

impl Patina {
    /// Overlay the given variable documents onto the current variables, in
    /// order and fail-fast: `texts[i]` is what reading `vars_files[i]`
    /// yielded. Processing stops at the first unreadable or unparsable
    /// document, whose path the error names; overlays already merged stay.
    pub fn load_vars_files(
        &mut self,
        vars_files: &Vec<String>,
        texts: Vec<Result<String, String>>,
    ) -> (r: Result<(), Error>)
        requires
            texts@.len() == vars_files@.len(),
        ensures
            final(self)@.vars == overlay_run_spec(
                old(self)@.vars,
                paths_view(vars_files@),
                texts_view(texts@),
            ).0,
            final(self)@.name == old(self)@.name,
            final(self)@.description == old(self)@.description,
            final(self)@.files == old(self)@.files,
            final(self)@.base_path == old(self)@.base_path,
            match r {
                Ok(_) => overlay_run_spec(
                    old(self)@.vars,
                    paths_view(vars_files@),
                    texts_view(texts@),
                ).1 is None,
                Err(e) => overlay_run_spec(
                    old(self)@.vars,
                    paths_view(vars_files@),
                    texts_view(texts@),
                ).1 == Some(e@),
            },
    {
        let ghost paths = paths_view(vars_files@);
        let ghost tviews = texts_view(texts@);
        let ghost v0 = old(self)@.vars;
        let mut i: usize = 0;
        proof {
            assert(paths.skip(0) =~= paths);
            assert(tviews.skip(0) =~= tviews);
        }
        while i < vars_files.len()
            invariant
                i <= vars_files@.len(),
                texts@.len() == vars_files@.len(),
                v0 == old(self)@.vars,
                paths == paths_view(vars_files@),
                tviews == texts_view(texts@),
                paths.len() == vars_files@.len(),
                tviews.len() == vars_files@.len(),
                overlay_run_spec(v0, paths, tviews) == overlay_run_spec(
                    self@.vars,
                    paths.skip(i as int),
                    tviews.skip(i as int),
                ),
                self@.name == old(self)@.name,
                self@.description == old(self)@.description,
                self@.files == old(self)@.files,
                self@.base_path == old(self)@.base_path,
            decreases vars_files@.len() - i,
        {
            proof {
                assert(paths.skip(i as int)[0] == paths[i as int]);
                assert(tviews.skip(i as int)[0] == tviews[i as int]);
                assert(paths.skip(i as int).drop_first() =~= paths.skip(i + 1));
                assert(tviews.skip(i as int).drop_first() =~= tviews.skip(i + 1));
                assert(paths[i as int] == vars_files@[i as int]@);
                assert(tviews[i as int] == (match texts@[i as int] {
                    Ok(s) => Ok::<Seq<char>, Seq<char>>(s@),
                    Err(c) => Err::<Seq<char>, Seq<char>>(c@),
                }));
            }
            let text = match &texts[i] {
                Ok(t) => t,
                Err(cause) => {
                    return Err(Error::FileRead(vars_files[i].clone(), cause.clone()));
                },
            };
            let tree = match parse_toml(text.as_str()) {
                Ok(tree) => tree,
                Err(m) => {
                    return Err(Error::TomlParse(m));
                },
            };
            let cur = self.vars.take();
            self.vars = Some(
                match cur {
                    None => tree,
                    Some(c) => merge_values(c, tree),
                },
            );
            i += 1;
        }
        proof {
            assert(paths.skip(vars_files@.len() as int) =~= Seq::<Seq<char>>::empty());
            assert(tviews.skip(vars_files@.len() as int) =~= Seq::<
                Result<Seq<char>, Seq<char>>,
            >::empty());
        }
        Ok(())
    }

    /// Resolve a path in the context of this Patina: home and environment
    /// references are expanded and the path cleaned; an absolute result
    /// stands alone, a relative one is joined onto the base directory and
    /// cleaned again. The expansion steps consult the process environment;
    /// `e1` and `e2` in [`patina_path_spec`] stand for their outcomes.
    pub fn get_patina_path(&self, path: &str) -> (r: String)
        ensures
            exists|e1: Option<Seq<char>>, e2: Option<Seq<char>>|
                r@ == #[trigger] patina_path_spec(self@.base_path, path@, e1, e2),
    {
        let p1 = match crate::utils::normalize_path(path) {
            Some(q) => q,
            None => String::from_str(path),
        };
        if crate::utils::is_absolute(p1.as_str()) {
            let ghost e1 = witness_e1(path@, p1@);
            proof {
                assert(p1@ == patina_path_spec(self@.base_path, path@, e1, None));
            }
            return p1;
        }
        let base = match &self.base_path {
            Some(b) => b.as_str(),
            None => ".",
        };
        let joined = crate::utils::join_path(base, p1.as_str());
        match crate::utils::normalize_path(joined.as_str()) {
            Some(q) => {
                let ghost e1 = witness_e1(path@, p1@);
                let ghost e2 = choose|e: Seq<char>| q@ == #[trigger] crate::utils::cleaned_of(e);
                proof {
                    assert(q@ == patina_path_spec(self@.base_path, path@, e1, Some(e2)));
                }
                q
            },
            None => {
                let ghost e1 = witness_e1(path@, p1@);
                proof {
                    assert(joined@ == patina_path_spec(self@.base_path, path@, e1, None));
                }
                joined
            },
        }
    }

    /// The file records selected by a tag filter: every record when no
    /// filter is given; with a filter, exactly the records one of whose
    /// tags is in it, in declaration order. Records without tags are left
    /// out whenever a filter is active.
    pub fn files_for_tags(&self, tags: Option<Vec<String>>) -> (r: Vec<PatinaFile>)
        ensures
            r@.map_values(|f: PatinaFile| f@) == selected_files(self@.files, opt_tags_view(tags)),
    {
        let ghost filterv = opt_tags_view(tags);
        let ghost pred = |f: PatinaFileSpec| tag_selected(f, filterv);
        let mut out: Vec<PatinaFile> = Vec::new();
        let mut i: usize = 0;
        proof {
            assert(self@.files.take(0) =~= Seq::<PatinaFileSpec>::empty());
            reveal(Seq::filter);
            assert(out@.map_values(|f: PatinaFile| f@) =~= self@.files.take(0).filter(pred));
        }
        while i < self.files.len()
            invariant
                i <= self.files@.len(),
                self@.files.len() == self.files@.len(),
                filterv == opt_tags_view(tags),
                pred == (|f: PatinaFileSpec| tag_selected(f, filterv)),
                out@.map_values(|f: PatinaFile| f@) == self@.files.take(i as int).filter(pred),
            decreases self.files@.len() - i,
        {
            proof {
                assert(self@.files[i as int] == self.files@[i as int]@);
                assert(self@.files.take(i + 1).drop_last() =~= self@.files.take(i as int));
                assert(self@.files.take(i + 1).last() == self@.files[i as int]);
                reveal(Seq::filter);
            }
            let f = &self.files[i];
            if file_selected(f, &tags) {
                let ghost out0 = out@;
                out.push(f.clone_file());
                proof {
                    assert(out@.map_values(|f: PatinaFile| f@) =~= out0.map_values(
                        |f: PatinaFile| f@,
                    ).push(self@.files[i as int]));
                }
            }
            i += 1;
        }
        proof {
            assert(self@.files.take(self.files@.len() as int) =~= self@.files);
        }
        out
    }
}

/// A witness for the outcome of the first expansion step in
/// [`Patina::get_patina_path`].
pub open spec fn witness_e1(p: Seq<char>, p1: Seq<char>) -> Option<Seq<char>> {
    if exists|e: Seq<char>| p1 == #[trigger] crate::utils::cleaned_of(e) && p1 != p {
        Some(choose|e: Seq<char>| p1 == #[trigger] crate::utils::cleaned_of(e) && p1 != p)
    } else {
        None
    }
}

/// The deterministic skeleton of path resolution, with the outcomes of the
/// two environment-dependent expansion steps as parameters: `e1` and `e2`
/// are what the expansion handed to the cleaner, `None` where expansion
/// failed and the input is used as it stands.
pub open spec fn patina_path_spec(
    base: Option<Seq<char>>,
    p: Seq<char>,
    e1: Option<Seq<char>>,
    e2: Option<Seq<char>>,
) -> Seq<char> {
    let p1 = match e1 {
        Some(e) => crate::utils::cleaned_of(e),
        None => p,
    };
    if crate::utils::is_absolute_spec(p1) {
        p1
    } else {
        let joined = crate::utils::join_path_spec(
            match base {
                Some(b) => b,
                None => "."@,
            },
            p1,
        );
        match e2 {
            Some(e) => crate::utils::cleaned_of(e),
            None => joined,
        }
    }
}

/// The views of an optional tag filter.
pub open spec fn opt_tags_view(tags: Option<Vec<String>>) -> Option<Seq<Seq<char>>> {
    match tags {
        Some(ts) => Some(ts@.map_values(|t: String| t@)),
        None => None,
    }
}

/// Whether a record passes a tag filter: always when there is no filter,
/// otherwise exactly when one of its tags is in the filter.
pub open spec fn tag_selected(f: PatinaFileSpec, filter: Option<Seq<Seq<char>>>) -> bool {
    match filter {
        None => true,
        Some(ts) => exists|i: int| 0 <= i < f.tags.len() && ts.contains(#[trigger] f.tags[i]),
    }
}

/// The records of `files` that pass the tag filter, in order.
pub open spec fn selected_files(
    files: Seq<PatinaFileSpec>,
    filter: Option<Seq<Seq<char>>>,
) -> Seq<PatinaFileSpec> {
    files.filter(|f: PatinaFileSpec| tag_selected(f, filter))
}

/// Whether one record passes the tag filter.
fn file_selected(f: &PatinaFile, tags: &Option<Vec<String>>) -> (r: bool)
    ensures
        r == tag_selected(f@, opt_tags_view(*tags)),
{
    let ts = match tags {
        None => {
            return true;
        },
        Some(ts) => ts,
    };
    let mut i: usize = 0;
    while i < f.tags.len()
        invariant
            i <= f.tags@.len(),
            forall|j: int|
                0 <= j < i ==> !(opt_tags_view(*tags) matches Some(tv) && tv.contains(
                    #[trigger] f@.tags[j],
                )),
            opt_tags_view(*tags) matches Some(tv) && tv == ts@.map_values(|t: String| t@),
        decreases f.tags@.len() - i,
    {
        if string_list_contains(ts, f.tags[i].as_str()) {
            proof {
                assert(f@.tags[i as int] == f.tags@[i as int]@);
            }
            return true;
        }
        i += 1;
    }
    false
}

/// Whether `s` occurs in a list of strings.
fn string_list_contains(ts: &Vec<String>, s: &str) -> (r: bool)
    ensures
        r == ts@.map_values(|t: String| t@).contains(s@),
{
    let mut i: usize = 0;
    while i < ts.len()
        invariant
            i <= ts@.len(),
            forall|j: int| 0 <= j < i ==> (#[trigger] ts@[j])@ != s@,
        decreases ts@.len() - i,
    {
        if crate::utils::str_eq(ts[i].as_str(), s) {
            proof {
                assert(ts@.map_values(|t: String| t@)[i as int] == s@);
            }
            return true;
        }
        i += 1;
    }
    proof {
        let mv = ts@.map_values(|t: String| t@);
        if mv.contains(s@) {
            let j = choose|j: int| 0 <= j < mv.len() && mv[j] == s@;
            assert(mv[j] == ts@[j]@);
            assert(false);
        }
    }
    false
}

/// The file records of a `files` array as owned values.
fn files_from_trees(xs: &Vec<VarValue>) -> (r: Result<Vec<PatinaFile>, Error>)
    ensures
        match r {
            Ok(files) => files_from_trees_spec(crate::vars::arr_model(xs@)) == Ok::<
                Seq<PatinaFileSpec>,
                Seq<char>,
            >(files@.map_values(|f: PatinaFile| f@)),
            Err(e) => e@ matches ErrSpec::TomlParse(m) && files_from_trees_spec(
                crate::vars::arr_model(xs@),
            ) == Err::<Seq<PatinaFileSpec>, Seq<char>>(m),
        },
{
    proof {
        crate::vars::lemma_arr_model_index(xs@);
    }
    let ghost m = crate::vars::arr_model(xs@);
    let mut out: Vec<PatinaFile> = Vec::new();
    let mut i: usize = 0;
    proof {
        assert(m.skip(0) =~= m);
        assert(out@.map_values(|f: PatinaFile| f@) =~= Seq::<PatinaFileSpec>::empty());
        assert forall|rest: Seq<PatinaFileSpec>|
            Seq::<PatinaFileSpec>::empty() + rest =~= rest by {}
    }
    while i < xs.len()
        invariant
            i <= xs@.len(),
            m == crate::vars::arr_model(xs@),
            m.len() == xs@.len(),
            forall|j: int| 0 <= j < xs@.len() ==> #[trigger] m[j] == vv_model(xs@[j]),
            files_from_trees_spec(m) == (match files_from_trees_spec(m.skip(i as int)) {
                Ok(rest) => Ok::<Seq<PatinaFileSpec>, Seq<char>>(
                    out@.map_values(|f: PatinaFile| f@) + rest,
                ),
                Err(e) => Err::<Seq<PatinaFileSpec>, Seq<char>>(e),
            }),
        decreases xs@.len() - i,
    {
        proof {
            assert(m.skip(i as int)[0] == m[i as int]);
            assert(m.skip(i as int).drop_first() =~= m.skip(i + 1));
        }
        match file_from_tree(&xs[i]) {
            Ok(f) => {
                let ghost out0 = out@;
                let ghost fv = f@;
                out.push(f);
                proof {
                    assert(out@.map_values(|f: PatinaFile| f@) =~= out0.map_values(
                        |f: PatinaFile| f@,
                    ) + seq![fv]);
                    assert forall|rest: Seq<PatinaFileSpec>|
                        out0.map_values(|f: PatinaFile| f@) + (seq![fv] + rest) =~= out@.map_values(
                        |f: PatinaFile| f@,
                    ) + rest by {}
                }
            },
            Err(e) => {
                return Err(e);
            },
        }
        i += 1;
    }
    proof {
        assert(m.skip(xs@.len() as int) =~= Seq::<Vval>::empty());
        assert(out@.map_values(|f: PatinaFile| f@) + Seq::<PatinaFileSpec>::empty()
            =~= out@.map_values(|f: PatinaFile| f@));
    }
    Ok(out)
}

} // verus!
