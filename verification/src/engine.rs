//! The orchestration of a Patina run: loading, rendering, diffing,
//! confirmation gating and the per-file apply sequence. All file reads and
//! writes happen outside; this module decides, step by step, what is read,
//! shown, asked and written, and in what order.

use vstd::prelude::*;

use crate::diff::{diff_records_of, has_changes, render_diff_spec, DiffAnalysis};
use crate::patina::{
    opt_tags_view, overlay_run_spec, paths_view, patina_from_tree_spec, texts_view, toml_tree_of,
    Patina, PatinaSpec,
};
use crate::templating::{renders_view, PatinaFileRender, PatinaFileRenderSpec};
use crate::utils::{parent_dir_spec, ErrSpec, Error};

verus! {

/// Specification-level shape of a [`PatinaEngine`].
pub struct PatinaEngineSpec {
    /// The path of the Patina document
    pub patina_path: Seq<char>,
    /// The tag filter, `None` when no tags were given
    pub tags: Option<Seq<Seq<char>>>,
    /// The variable overlay files, in order
    pub variables_files: Seq<Seq<char>>,
}

/// The PatinaEngine is the main driver of logic for a Patina run.
#[derive(Debug)]
pub struct PatinaEngine {
    /// The path to the Patina file on disk
    pub patina_path: String,
    /// The set of tags to filter on, `None` when no tags were given
    pub tags: Option<Vec<String>>,
    /// A list of variables file paths
    pub variables_files: Vec<String>,
}

impl View for PatinaEngine {
    type V = PatinaEngineSpec;

    open spec fn view(&self) -> PatinaEngineSpec {
        PatinaEngineSpec {
            patina_path: self.patina_path@,
            tags: match self.tags {
                Some(ts) => Some(paths_view(ts@)),
                None => None,
            },
            variables_files: paths_view(self.variables_files@),
        }
    }
}

/// The view of one read attempt.
pub open spec fn text_view(t: Result<String, String>) -> Result<Seq<char>, Seq<char>> {
    match t {
        Ok(s) => Ok(s@),
        Err(c) => Err(c@),
    }
}

/// What loading yields: the Patina document is parsed and validated, its
/// base directory set to the directory of its source file, and the
/// variable overlays merged in order, fail-fast.
pub open spec fn load_spec(
    path: Seq<char>,
    var_paths: Seq<Seq<char>>,
    patina_text: Result<Seq<char>, Seq<char>>,
    var_texts: Seq<Result<Seq<char>, Seq<char>>>,
) -> Result<PatinaSpec, ErrSpec> {
    match patina_text {
        Err(c) => Err(ErrSpec::FileRead(path, c)),
        Ok(t) => match toml_tree_of(t) {
            Err(m) => Err(ErrSpec::TomlParse(m)),
            Ok(tree) => match patina_from_tree_spec(tree) {
                Err(m) => Err(ErrSpec::TomlParse(m)),
                Ok(ps) => {
                    let run = overlay_run_spec(ps.vars, var_paths, var_texts);
                    match run.1 {
                        Some(e) => Err(e),
                        None => Ok(
                            PatinaSpec {
                                name: ps.name,
                                description: ps.description,
                                vars: run.0,
                                files: ps.files,
                                base_path: Some(parent_dir_spec(path)),
                            },
                        ),
                    }
                },
            },
        },
    }
}

impl PatinaEngine {
    /// Create a new PatinaEngine; an empty tag list means no filter.
    pub fn new(patina_path: &str, tags: Vec<String>, variables_files: Vec<String>) -> (r:
        PatinaEngine)
        ensures
            r@.patina_path == patina_path@,
            r@.tags == (if tags@.len() == 0 {
                None::<Seq<Seq<char>>>
            } else {
                Some(paths_view(tags@))
            }),
            r@.variables_files == paths_view(variables_files@),
    {
        let tags = if tags.len() == 0 {
            None
        } else {
            Some(tags)
        };
        PatinaEngine { patina_path: String::from_str(patina_path), tags, variables_files }
    }

    /// A copy of the tag filter.
    pub fn clone_tags(&self) -> (r: Option<Vec<String>>)
        ensures
            opt_tags_view(r) == self@.tags,
    {
        match &self.tags {
            None => None,
            Some(ts) => Some(crate::utils::clone_strings(ts)),
        }
    }

    /// Build the Patina this engine is configured for: `patina_text` is
    /// what reading the Patina document yielded, and `var_texts[i]` what
    /// reading `variables_files[i]` yielded. Any failure aborts the load.
    pub fn load_patina(
        &self,
        patina_text: Result<String, String>,
        var_texts: Vec<Result<String, String>>,
    ) -> (r: Result<Patina, Error>)
        requires
            var_texts@.len() == self.variables_files@.len(),
        ensures
            match r {
                Ok(p) => load_spec(
                    self@.patina_path,
                    self@.variables_files,
                    text_view(patina_text),
                    texts_view(var_texts@),
                ) == Ok::<PatinaSpec, ErrSpec>(p@),
                Err(e) => load_spec(
                    self@.patina_path,
                    self@.variables_files,
                    text_view(patina_text),
                    texts_view(var_texts@),
                ) == Err::<PatinaSpec, ErrSpec>(e@),
            },
    {
        let text = match patina_text {
            Ok(t) => t,
            Err(c) => {
                return Err(Error::FileRead(self.patina_path.clone(), c));
            },
        };
        let mut p = match Patina::from_toml_str(text.as_str(), self.patina_path.as_str()) {
            Ok(p) => p,
            Err(e) => {
                return Err(e);
            },
        };
        match p.load_vars_files(&self.variables_files, var_texts) {
            Ok(_) => Ok(p),
            Err(e) => Err(e),
        }
    }

}

/// The text a target file held, an absent or unreadable file counting as
/// empty text.
pub open spec fn opt_text(t: Option<Seq<char>>) -> Seq<char> {
    match t {
        Some(x) => x,
        None => Seq::empty(),
    }
}

/// The views of the target texts.
pub open spec fn opt_texts_view(ts: Seq<Option<String>>) -> Seq<Option<Seq<char>>> {
    ts.map_values(
        |t: Option<String>|
            match t {
                Some(s) => Some(s@),
                None => None,
            },
    )
}

/// Whether a render differs from the target text it would replace.
pub open spec fn diff_changed(r: PatinaFileRenderSpec, t: Option<Seq<char>>) -> bool {
    has_changes(diff_records_of(opt_text(t), r.render_str))
}

/// The displayed diff between a render and the target text it would
/// replace.
pub open spec fn diff_block(r: PatinaFileRenderSpec, t: Option<Seq<char>>) -> Seq<char> {
    render_diff_spec(diff_records_of(opt_text(t), r.render_str))
}

/// A render byte-identical to the text its target holds never counts as
/// changed: it is reported in the without-changes group, no confirmation
/// is asked for it, and the apply loop skips it.
pub proof fn lemma_identical_target_unchanged(r: PatinaFileRenderSpec)
    ensures
        !diff_changed(r, Some(r.render_str)),
{
    crate::diff::lemma_identical_texts_diff(r.render_str);
}

/// Whether any render differs from its target.
pub open spec fn any_changed(
    renders: Seq<PatinaFileRenderSpec>,
    texts: Seq<Option<Seq<char>>>,
) -> bool {
    exists|i: int| 0 <= i < renders.len() && diff_changed(#[trigger] renders[i], texts[i])
}

/// Whether any render equals its target.
pub open spec fn any_unchanged(
    renders: Seq<PatinaFileRenderSpec>,
    texts: Seq<Option<Seq<char>>>,
) -> bool {
    exists|i: int| 0 <= i < renders.len() && !diff_changed(#[trigger] renders[i], texts[i])
}

/// The lines of the without-changes group from entry `i` on: one line per
/// unchanged file, its target path followed by the one-line diff summary.
pub open spec fn unchanged_section(
    paths: Seq<Seq<char>>,
    texts: Seq<Option<Seq<char>>>,
    renders: Seq<PatinaFileRenderSpec>,
    i: int,
) -> Seq<char>
    decreases renders.len() - i,
{
    if i < 0 || i >= renders.len() {
        Seq::empty()
    } else {
        (if !diff_changed(renders[i], texts[i]) {
            "  "@ + paths[i] + " "@ + diff_block(renders[i], texts[i])
        } else {
            Seq::empty()
        }) + unchanged_section(paths, texts, renders, i + 1)
    }
}

/// The blocks of the with-changes group from entry `i` on: each changed
/// file's target path as a header, its diff, and a blank line.
pub open spec fn changed_section(
    paths: Seq<Seq<char>>,
    texts: Seq<Option<Seq<char>>>,
    renders: Seq<PatinaFileRenderSpec>,
    i: int,
) -> Seq<char>
    decreases renders.len() - i,
{
    if i < 0 || i >= renders.len() {
        Seq::empty()
    } else {
        (if diff_changed(renders[i], texts[i]) {
            "\n"@ + paths[i] + "\n"@ + diff_block(renders[i], texts[i]) + "\n"@
        } else {
            Seq::empty()
        }) + changed_section(paths, texts, renders, i + 1)
    }
}

/// The whole diff display: the unchanged files first as a grouped list,
/// then each changed file with a header and its gap-compressed diff.
pub open spec fn display_spec(
    paths: Seq<Seq<char>>,
    texts: Seq<Option<Seq<char>>>,
    renders: Seq<PatinaFileRenderSpec>,
) -> Seq<char> {
    (if any_unchanged(renders, texts) {
        "\nFiles without changes:\n"@ + unchanged_section(paths, texts, renders, 0) + "\n"@
    } else {
        Seq::empty()
    }) + (if any_changed(renders, texts) {
        (if !any_unchanged(renders, texts) {
            "\n"@
        } else {
            Seq::empty()
        }) + changed_section(paths, texts, renders, 0)
    } else {
        Seq::empty()
    })
}

impl PatinaEngine {
    /// Diff every render against the text its target currently holds
    /// (`target_texts[i]`, `None` for a missing or unreadable file, which
    /// counts as empty), record each outcome on the render, and build the
    /// grouped display: unchanged files first, then each changed file's
    /// diff under a header. Returns whether anything changed at all, and
    /// the display text.
    pub fn generate_and_display_diffs(
        &self,
        renders: &mut Vec<PatinaFileRender>,
        target_paths: &Vec<String>,
        target_texts: &Vec<Option<String>>,
    ) -> (r: (bool, String))
        requires
            old(renders)@.len() == target_paths@.len(),
            old(renders)@.len() == target_texts@.len(),
        ensures
            final(renders)@.len() == old(renders)@.len(),
            forall|i: int|
                0 <= i < old(renders)@.len() ==> (#[trigger] final(renders)@[i]@).patina_file
                    == old(renders)@[i]@.patina_file && final(renders)@[i]@.render_str == old(
                    renders,
                )@[i]@.render_str && final(renders)@[i]@.any_changes == Some(
                    diff_changed(old(renders)@[i]@, opt_texts_view(target_texts@)[i]),
                ),
            r.0 == any_changed(renders_view(old(renders)@), opt_texts_view(target_texts@)),
            r.1@ == display_spec(
                paths_view(target_paths@),
                opt_texts_view(target_texts@),
                renders_view(old(renders)@),
            ),
    {
        let ghost rviews = renders_view(old(renders)@);
        let ghost texts = opt_texts_view(target_texts@);
        let ghost paths = paths_view(target_paths@);
        let n = renders.len();
        let mut done: Vec<PatinaFileRender> = Vec::new();
        let mut dvec: Vec<String> = Vec::new();
        let mut cvec: Vec<bool> = Vec::new();
        let mut i: usize = 0;
        proof {
            assert(rviews.len() == n);
            assert(texts.len() == n);
            assert(paths.len() == n);
        }
        while i < n
            invariant
                i <= n,
                renders@.len() == n - i,
                n == old(renders)@.len(),
                n == target_texts@.len(),
                rviews == renders_view(old(renders)@),
                texts == opt_texts_view(target_texts@),
                rviews.len() == n,
                texts.len() == n,
                forall|j: int| 0 <= j < n - i ==> #[trigger] renders@[j]@ == rviews[i + j],
                done@.len() == i,
                dvec@.len() == i,
                cvec@.len() == i,
                forall|j: int|
                    0 <= j < i ==> (#[trigger] done@[j]@).patina_file == rviews[j].patina_file
                        && done@[j]@.render_str == rviews[j].render_str && done@[j]@.any_changes
                        == Some(diff_changed(rviews[j], texts[j])),
                forall|j: int| 0 <= j < i ==> #[trigger] cvec@[j] == diff_changed(rviews[j], texts[j]),
                forall|j: int|
                    0 <= j < i ==> (#[trigger] dvec@[j])@ == diff_block(rviews[j], texts[j]),
            decreases n - i,
        {
            proof {
                assert(renders@[0]@ == rviews[i as int]);
                assert(texts[i as int] == (match target_texts@[i as int] {
                    Some(s) => Some(s@),
                    None => None::<Seq<char>>,
                }));
            }
            let mut cur = renders.remove(0);
            let old_text: &str = match &target_texts[i] {
                Some(t) => t.as_str(),
                None => "",
            };
            proof {
                reveal_strlit("");
                assert(old_text@ =~= opt_text(texts[i as int]));
            }
            let diff = crate::diff::TextDiff::from_lines(old_text, cur.render_str.as_str());
            let changed = diff.any_changes();
            let diff_str = diff.to_string();
            cur.any_changes = Some(changed);
            done.push(cur);
            dvec.push(diff_str);
            cvec.push(changed);
            i += 1;
        }
        let mut any_c = false;
        let mut any_u = false;
        let mut unchanged_out = String::new();
        let mut changed_out = String::new();
        let mut j: usize = 0;
        proof {
            assert(unchanged_out@ + unchanged_section(paths, texts, rviews, 0)
                =~= unchanged_section(paths, texts, rviews, 0));
            assert(changed_out@ + changed_section(paths, texts, rviews, 0) =~= changed_section(
                paths,
                texts,
                rviews,
                0,
            ));
        }
        while j < n
            invariant
                j <= n,
                n == target_paths@.len(),
                rviews.len() == n,
                texts.len() == n,
                paths.len() == n,
                paths == paths_view(target_paths@),
                dvec@.len() == n,
                cvec@.len() == n,
                forall|k: int| 0 <= k < n ==> #[trigger] cvec@[k] == diff_changed(rviews[k], texts[k]),
                forall|k: int|
                    0 <= k < n ==> (#[trigger] dvec@[k])@ == diff_block(rviews[k], texts[k]),
                any_c == exists|k: int| 0 <= k < j && diff_changed(#[trigger] rviews[k], texts[k]),
                any_u == exists|k: int| 0 <= k < j && !diff_changed(#[trigger] rviews[k], texts[k]),
                unchanged_section(paths, texts, rviews, 0) == unchanged_out@ + unchanged_section(
                    paths,
                    texts,
                    rviews,
                    j as int,
                ),
                changed_section(paths, texts, rviews, 0) == changed_out@ + changed_section(
                    paths,
                    texts,
                    rviews,
                    j as int,
                ),
            decreases n - j,
        {
            proof {
                assert(paths[j as int] == target_paths@[j as int]@);
            }
            if cvec[j] {
                any_c = true;
                let ghost co = changed_out@;
                changed_out.append("\n");
                changed_out.append(target_paths[j].as_str());
                changed_out.append("\n");
                changed_out.append(dvec[j].as_str());
                changed_out.append("\n");
                proof {
                    assert(changed_out@ =~= co + ("\n"@ + paths[j as int] + "\n"@ + diff_block(
                        rviews[j as int],
                        texts[j as int],
                    ) + "\n"@));
                    assert(co + (("\n"@ + paths[j as int] + "\n"@ + diff_block(
                        rviews[j as int],
                        texts[j as int],
                    ) + "\n"@) + changed_section(paths, texts, rviews, j + 1)) =~= changed_out@
                        + changed_section(paths, texts, rviews, j + 1));
                    assert(exists|k: int|
                        0 <= k < j + 1 && diff_changed(#[trigger] rviews[k], texts[k]));
                }
            } else {
                any_u = true;
                let ghost uo = unchanged_out@;
                unchanged_out.append("  ");
                unchanged_out.append(target_paths[j].as_str());
                unchanged_out.append(" ");
                unchanged_out.append(dvec[j].as_str());
                proof {
                    assert(unchanged_out@ =~= uo + ("  "@ + paths[j as int] + " "@ + diff_block(
                        rviews[j as int],
                        texts[j as int],
                    )));
                    assert(uo + (("  "@ + paths[j as int] + " "@ + diff_block(
                        rviews[j as int],
                        texts[j as int],
                    )) + unchanged_section(paths, texts, rviews, j + 1)) =~= unchanged_out@
                        + unchanged_section(paths, texts, rviews, j + 1));
                    assert(exists|k: int|
                        0 <= k < j + 1 && !diff_changed(#[trigger] rviews[k], texts[k]));
                }
            }
            j += 1;
        }
        proof {
            assert(unchanged_section(paths, texts, rviews, n as int) =~= Seq::<char>::empty());
            assert(changed_section(paths, texts, rviews, n as int) =~= Seq::<char>::empty());
            assert(unchanged_out@ =~= unchanged_section(paths, texts, rviews, 0));
            assert(changed_out@ =~= changed_section(paths, texts, rviews, 0));
        }
        let mut output = String::new();
        if any_u {
            output.append("\nFiles without changes:\n");
            output.append(unchanged_out.as_str());
            output.append("\n");
        }
        if any_c {
            if !any_u {
                output.append("\n");
            }
            output.append(changed_out.as_str());
        }
        *renders = done;
        proof {
            assert(output@ =~= display_spec(paths, texts, rviews));
        }
        (any_c, output)
    }
}

/// The lines of the render listing from entry `i` on: each rendered
/// file's template path followed by its rendered text.
pub open spec fn render_output_items(renders: Seq<PatinaFileRenderSpec>, i: int) -> Seq<char>
    decreases renders.len() - i,
{
    if i < 0 || i >= renders.len() {
        Seq::empty()
    } else {
        renders[i].patina_file.template + "\n"@ + renders[i].render_str + "\n"@
            + render_output_items(renders, i + 1)
    }
}

/// The whole render listing: a count line, then each render under its
/// template path.
pub open spec fn render_output_spec(renders: Seq<PatinaFileRenderSpec>) -> Seq<char> {
    "Rendered "@ + crate::diff::dec_str(renders.len()) + " files\n\n"@ + render_output_items(
        renders,
        0,
    )
}

impl PatinaEngine {
    /// Render every selected entry and build the render listing for
    /// display. `template_sources[i]` carries the resolved path of the
    /// i-th selected entry's template and what reading it yielded; all
    /// renders must succeed, and the first failure aborts the whole run.
    pub fn render_patina(
        &self,
        patina: &Patina,
        template_sources: Vec<(String, Result<String, String>)>,
    ) -> (r: Result<(Vec<PatinaFileRender>, String), Error>)
        requires
            template_sources@.len() == crate::patina::selected_files(
                patina@.files,
                self@.tags,
            ).len(),
        ensures
            match r {
                Ok(rs) => crate::templating::render_all_spec(
                    crate::patina::selected_files(patina@.files, self@.tags),
                    patina@.vars,
                    crate::patina::sources_view(template_sources@),
                ) == Ok::<Seq<PatinaFileRenderSpec>, ErrSpec>(renders_view(rs.0@)) && rs.1@
                    == render_output_spec(renders_view(rs.0@)),
                Err(e) => crate::templating::render_all_spec(
                    crate::patina::selected_files(patina@.files, self@.tags),
                    patina@.vars,
                    crate::patina::sources_view(template_sources@),
                ) == Err::<Seq<PatinaFileRenderSpec>, ErrSpec>(e@),
            },
    {
        let renders = match crate::templating::render_patina(
            patina,
            self.clone_tags(),
            template_sources,
        ) {
            Ok(rs) => rs,
            Err(e) => {
                return Err(e);
            },
        };
        let ghost rviews = renders_view(renders@);
        let mut out = String::from_str("Rendered ");
        let count = crate::diff::num_to_string(renders.len() as u128);
        out.append(count.as_str());
        out.append(" files\n\n");
        let mut i: usize = 0;
        proof {
            assert(rviews.len() == renders@.len());
            assert(out@ + render_output_items(rviews, 0) =~= "Rendered "@ + crate::diff::dec_str(
                rviews.len(),
            ) + " files\n\n"@ + render_output_items(rviews, 0));
        }
        while i < renders.len()
            invariant
                i <= renders@.len(),
                rviews == renders_view(renders@),
                rviews.len() == renders@.len(),
                render_output_spec(rviews) == out@ + render_output_items(rviews, i as int),
            decreases renders@.len() - i,
        {
            proof {
                assert(rviews[i as int] == renders@[i as int]@);
            }
            let ghost out0 = out@;
            out.append(renders[i].patina_file.template.as_str());
            out.append("\n");
            out.append(renders[i].render_str.as_str());
            out.append("\n");
            proof {
                assert(out@ =~= out0 + (rviews[i as int].patina_file.template + "\n"@
                    + rviews[i as int].render_str + "\n"@));
                assert(out0 + ((rviews[i as int].patina_file.template + "\n"@
                    + rviews[i as int].render_str + "\n"@) + render_output_items(rviews, i + 1))
                    =~= out@ + render_output_items(rviews, i + 1));
            }
            i += 1;
        }
        proof {
            assert(render_output_items(rviews, rviews.len() as int) =~= Seq::<char>::empty());
            assert(out@ + Seq::<char>::empty() =~= out@);
        }
        Ok((renders, out))
    }
}

/// The outcome of the confirmation step between diffing and writing.
#[derive(Debug, PartialEq, Eq, Structural, Clone, Copy)]
pub enum ApplyDecision {
    /// Nothing differs; nothing is asked and nothing is written
    NoChanges,
    /// The user did not confirm; nothing is written
    Declined,
    /// The apply goes ahead
    Proceed,
}

/// The decision taken between diffing and writing: no changes stop the
/// run before any confirmation; with input enabled, anything but an
/// affirmative answer declines; otherwise the apply proceeds.
pub open spec fn apply_decision_spec(
    any_changes: bool,
    input_enabled: bool,
    confirmed: bool,
) -> ApplyDecision {
    if !any_changes {
        ApplyDecision::NoChanges
    } else if input_enabled && !confirmed {
        ApplyDecision::Declined
    } else {
        ApplyDecision::Proceed
    }
}

/// The message each decision prints.
pub open spec fn decision_output_spec(d: ApplyDecision) -> Seq<char> {
    match d {
        ApplyDecision::NoChanges => "No file changes detected in the patina\n"@,
        ApplyDecision::Declined => "Not applying patina."@,
        ApplyDecision::Proceed => "\nApplying patina files\n"@,
    }
}

/// The prompt shown when confirmation is requested.
pub fn confirm_prompt() -> (r: String)
    ensures
        r@ == "Do you want to continue? (y/n): "@,
{
    String::from_str("Do you want to continue? (y/n): ")
}

/// Decide whether the apply goes ahead: `confirmation` is the user's
/// answer where one was requested, which is exactly when something
/// changed and input is enabled. Returns the decision and its message.
pub fn apply_decision(
    any_changes: bool,
    pi: &CliPatinaInterface,
    confirmation: Option<bool>,
) -> (r: (ApplyDecision, String))
    requires
        any_changes && pi@ ==> confirmation is Some,
    ensures
        r.0 == apply_decision_spec(any_changes, pi@, confirmation == Some(true)),
        r.1@ == decision_output_spec(r.0),
{
    if !any_changes {
        (ApplyDecision::NoChanges, String::from_str("No file changes detected in the patina\n"))
    } else if pi.is_input_enabled() && !(matches!(confirmation, Some(true))) {
        (ApplyDecision::Declined, String::from_str("Not applying patina."))
    } else {
        (ApplyDecision::Proceed, String::from_str("\nApplying patina files\n"))
    }
}

/// The closing message of an apply run.
pub open spec fn finish_output_spec(num_trashed: nat) -> Seq<char> {
    "Done"@ + (if num_trashed > 0 {
        " (original files moved to trash)"@
    } else {
        Seq::<char>::empty()
    }) + "\n"@
}

/// The closing message of an apply run, noting when originals were moved
/// to the trash.
pub fn finish_output(num_trashed: usize) -> (r: String)
    ensures
        r@ == finish_output_spec(num_trashed as nat),
{
    let mut out = String::from_str("Done");
    if num_trashed > 0 {
        out.append(" (original files moved to trash)");
    }
    out.append("\n");
    proof {
        assert(out@ =~= finish_output_spec(num_trashed as nat));
    }
    out
}

/// How the engine interacts with the user from the command line: whether
/// the run may ask for confirmation. The printing itself happens outside.
#[derive(Debug)]
pub struct CliPatinaInterface {
    /// Whether input is enabled. When `false`, no confirmation is asked
    /// and the run continues until it has completed or failed.
    is_input_enabled: bool,
}

impl View for CliPatinaInterface {
    type V = bool;

    closed spec fn view(&self) -> bool {
        self.is_input_enabled
    }
}

impl CliPatinaInterface {
    /// A new interface with input enabled.
    pub fn new() -> (r: CliPatinaInterface)
        ensures
            r@ == true,
    {
        CliPatinaInterface { is_input_enabled: true }
    }

    /// Set whether or not input is enabled.
    pub fn set_is_input_enabled(&mut self, value: bool)
        ensures
            final(self)@ == value,
    {
        self.is_input_enabled = value;
    }

    /// Get whether or not input is enabled.
    pub fn is_input_enabled(&self) -> (r: bool)
        ensures
            r == self@,
    {
        self.is_input_enabled
    }
}

/// Whether a character is blank space around a confirmation answer.
pub open spec fn is_ws(c: char) -> bool {
    c == ' ' || c == '\t' || c == '\n' || c == '\r'
}

/// The number of blank characters leading a string.
pub open spec fn lead_ws(s: Seq<char>) -> nat
    decreases s.len(),
{
    if s.len() == 0 || !is_ws(s[0]) {
        0
    } else {
        1 + lead_ws(s.drop_first())
    }
}

/// The number of blank characters trailing a string.
pub open spec fn trail_ws(s: Seq<char>) -> nat
    decreases s.len(),
{
    if s.len() == 0 || !is_ws(s.last()) {
        0
    } else {
        1 + trail_ws(s.drop_last())
    }
}

/// The string with leading and trailing blanks removed.
pub open spec fn trimmed(s: Seq<char>) -> Seq<char> {
    if lead_ws(s) == s.len() {
        Seq::empty()
    } else {
        s.subrange(lead_ws(s) as int, s.len() - trail_ws(s))
    }
}

/// Whether a confirmation answer is affirmative: exactly the single letter
/// y, in either case, around any amount of blank space. Everything else,
/// an empty answer included, declines.
pub open spec fn is_affirmative_spec(s: Seq<char>) -> bool {
    trimmed(s) == "y"@ || trimmed(s) == "Y"@
}

proof fn lemma_lead_ws_scan(s: Seq<char>, a: int)
    requires
        0 <= a <= s.len(),
        forall|j: int| 0 <= j < a ==> is_ws(#[trigger] s[j]),
        a == s.len() || !is_ws(s[a]),
    ensures
        lead_ws(s) == a,
    decreases a, s.len(),
{
    if s.len() == 0 {
    } else if a == 0 {
    } else {
        assert(is_ws(s[0]));
        lemma_lead_ws_scan(s.drop_first(), a - 1);
    }
}

proof fn lemma_trail_ws_scan(s: Seq<char>, b: int)
    requires
        0 <= b <= s.len(),
        forall|j: int| b <= j < s.len() ==> is_ws(#[trigger] s[j]),
        b == 0 || !is_ws(s[b - 1]),
    ensures
        trail_ws(s) == s.len() - b,
    decreases s.len() - b,
{
    if b < s.len() {
        assert(is_ws(s.last()));
        lemma_trail_ws_scan(s.drop_last(), b);
    }
}

/// Whether one line of input confirms the apply: exactly the letter y in
/// either case, once blanks are trimmed.
pub fn is_affirmative(input: &str) -> (r: bool)
    ensures
        r == is_affirmative_spec(input@),
{
    let n = input.unicode_len();
    let mut a: usize = 0;
    while a < n && (input.get_char(a) == ' ' || input.get_char(a) == '\t' || input.get_char(a)
        == '\n' || input.get_char(a) == '\r')
        invariant
            a <= n,
            n == input@.len(),
            forall|j: int| 0 <= j < a ==> is_ws(#[trigger] input@[j]),
        decreases n - a,
    {
        a += 1;
    }
    if a == n {
        proof {
            lemma_lead_ws_scan(input@, n as int);
            reveal_strlit("y");
            reveal_strlit("Y");
            assert("y"@.len() == 1);
            assert("Y"@.len() == 1);
            assert(trimmed(input@).len() == 0);
            assert(!is_affirmative_spec(input@));
        }
        return false;
    }
    let mut b: usize = n;
    while b > a + 1 && (input.get_char(b - 1) == ' ' || input.get_char(b - 1) == '\t'
        || input.get_char(b - 1) == '\n' || input.get_char(b - 1) == '\r')
        invariant
            a < b <= n,
            n == input@.len(),
            forall|j: int| b <= j < n ==> is_ws(#[trigger] input@[j]),
        decreases b,
    {
        b -= 1;
    }
    let t = input.substring_char(a, b);
    proof {
        lemma_lead_ws_scan(input@, a as int);
        if is_ws(input@[b - 1]) {
            assert(b == a + 1);
            assert(false);
        }
        lemma_trail_ws_scan(input@, b as int);
        assert(t@ =~= trimmed(input@));
    }
    let ry = crate::utils::str_eq(t, "y");
    let rny = crate::utils::str_eq(t, "Y");
    ry || rny
}


/// One file the apply loop will process: its resolved target path, the
/// content to write, and whether the diff found changes.
#[derive(Debug)]
pub struct ApplyItem {
    /// The resolved target path
    pub path: String,
    /// The rendered content to write
    pub content: String,
    /// The diff's outcome for this file
    pub any_changes: Option<bool>,
}

/// Specification-level shape of an [`ApplyItem`].
pub struct ApplyItemSpec {
    /// The resolved target path
    pub path: Seq<char>,
    /// The rendered content to write
    pub content: Seq<char>,
    /// The diff's outcome for this file
    pub any_changes: Option<bool>,
}

impl View for ApplyItem {
    type V = ApplyItemSpec;

    open spec fn view(&self) -> ApplyItemSpec {
        ApplyItemSpec {
            path: self.path@,
            content: self.content@,
            any_changes: self.any_changes,
        }
    }
}

/// The views of a list of apply items.
pub open spec fn items_view(v: Seq<ApplyItem>) -> Seq<ApplyItemSpec> {
    v.map_values(|it: ApplyItem| it@)
}

/// Where an [`ApplyRun`] stands: which answer it is waiting for.
#[derive(Debug, PartialEq, Eq, Structural, Clone, Copy)]
pub enum ApplyPhase {
    /// Not yet started
    Ready,
    /// Waiting to hear whether the current target exists as a file
    AwaitCheck,
    /// Waiting for the outcome of moving the current target to the trash
    AwaitTrash,
    /// Waiting for the outcome of writing the current target
    AwaitWrite,
    /// The run has completed or failed
    Finished,
}

/// What the app reports back to the run.
#[derive(Debug)]
pub enum ApplyEvent {
    /// Start the run
    Begin,
    /// Whether the target to check exists as a regular file
    TargetIsFile(bool),
    /// The outcome of the trash move, `Some` carrying the failure's cause
    Trashed(Option<String>),
    /// The outcome of the write, `Some` carrying the failure's cause
    Wrote(Option<String>),
}

/// What the app must do next.
#[derive(Debug)]
pub enum ApplyCmd {
    /// Check whether this path exists as a regular file
    CheckTarget {
        /// The target path to check
        path: String,
    },
    /// Move this path to the trash
    TrashTarget {
        /// The target path to move
        path: String,
    },
    /// Create missing parent directories and write the content to the path
    WriteTarget {
        /// The target path to write
        path: String,
        /// The content to write
        content: String,
    },
    /// The run completed; nothing more to do
    Done {
        /// How many originals were moved to the trash
        num_trashed: usize,
    },
    /// The run failed; the remaining files are not touched
    Failed {
        /// What went wrong
        error: Error,
    },
}

/// The first index at or after `i` whose file has changes (or was never
/// diffed); files the diff found unchanged are skipped.
pub open spec fn first_active(items: Seq<ApplyItemSpec>, i: int) -> int
    decreases items.len() - i,
{
    if i < 0 || i >= items.len() {
        items.len() as int
    } else if items[i].any_changes == Some(false) {
        first_active(items, i + 1)
    } else {
        i
    }
}

/// Between an index and its first active index stand exactly the files
/// the diff found unchanged: none of them is ever checked, trashed or
/// written, and the first active file is not one of them.
pub proof fn lemma_first_active_skips_unchanged(items: Seq<ApplyItemSpec>, from: int)
    requires
        0 <= from <= items.len(),
    ensures
        from <= first_active(items, from) <= items.len(),
        forall|j: int|
            from <= j < first_active(items, from) ==> (#[trigger] items[j]).any_changes == Some(
                false,
            ),
        first_active(items, from) == items.len() || items[first_active(items, from)].any_changes
            != Some(false),
    decreases items.len() - from,
{
    if from < items.len() && items[from].any_changes == Some(false) {
        lemma_first_active_skips_unchanged(items, from + 1);
    }
}

/// The skipped-file lines printed between index `i` and the next active
/// index: each unchanged file is reported as already up to date.
pub open spec fn skip_output(items: Seq<ApplyItemSpec>, i: int) -> Seq<char>
    decreases items.len() - i,
{
    if i < 0 || i >= items.len() || items[i].any_changes != Some(false) {
        Seq::empty()
    } else {
        "   "@ + items[i].path + " \u{2713} (no change)\n"@ + skip_output(items, i + 1)
    }
}

/// What stepping into the items from index `from` yields: unchanged files
/// are skipped with a report, and at the first active file the run either
/// finishes (none left), asks for a target check (trash wanted and the
/// diff found changes), or asks for the write directly.
pub open spec fn advance_post(
    items: Seq<ApplyItemSpec>,
    from: int,
    nt: int,
    use_trash: bool,
    post_idx: int,
    post_phase: ApplyPhase,
    cmd: ApplyCmd,
    out: Seq<char>,
    prefix: Seq<char>,
) -> bool {
    let fa = first_active(items, from);
    &&& post_idx == fa
    &&& out == prefix + skip_output(items, from) + (if fa < items.len() {
        "   "@ + items[fa].path
    } else {
        Seq::empty()
    })
    &&& if fa >= items.len() {
        &&& post_phase == ApplyPhase::Finished
        &&& cmd matches ApplyCmd::Done { num_trashed } && num_trashed == nt
    } else if use_trash && items[fa].any_changes == Some(true) {
        &&& post_phase == ApplyPhase::AwaitCheck
        &&& cmd matches ApplyCmd::CheckTarget { path } && path@ == items[fa].path
    } else {
        &&& post_phase == ApplyPhase::AwaitWrite
        &&& cmd matches ApplyCmd::WriteTarget { path, content } && path@ == items[fa].path
            && content@ == items[fa].content
    }
}

/// The per-file apply sequence, driven step by step: the app performs each
/// returned command and reports its outcome; the run decides what follows.
/// A file the diff found unchanged is skipped outright — no backup, no
/// write. For a changed file, when backups are wanted the existing target
/// is moved to the trash strictly before the new content is written. The
/// first failure finishes the run; files already written stay.
#[derive(Debug)]
pub struct ApplyRun {
    /// The files to process, in order
    pub items: Vec<ApplyItem>,
    /// Whether existing targets are moved to the trash before overwriting
    pub use_trash: bool,
    /// The index of the file being processed
    pub idx: usize,
    /// How many originals have been moved to the trash so far
    pub num_trashed: usize,
    /// Which answer the run is waiting for
    pub phase: ApplyPhase,
}

impl ApplyRun {
    /// The structural invariant of a run.
    pub open spec fn wf(self) -> bool {
        let items = items_view(self.items@);
        &&& self.idx <= items.len()
        &&& self.num_trashed <= self.idx + 1
        &&& (self.phase == ApplyPhase::Ready || self.phase == ApplyPhase::AwaitCheck
            || self.phase == ApplyPhase::AwaitTrash ==> self.num_trashed <= self.idx)
        &&& (self.phase == ApplyPhase::AwaitCheck || self.phase == ApplyPhase::AwaitTrash
            || self.phase == ApplyPhase::AwaitWrite ==> self.idx < items.len())
        &&& (self.phase == ApplyPhase::AwaitCheck || self.phase == ApplyPhase::AwaitTrash
            ==> self.use_trash && items[self.idx as int].any_changes == Some(true))
        &&& (self.phase == ApplyPhase::AwaitWrite ==> items[self.idx as int].any_changes != Some(
            false,
        ))
    }

    /// A run over the given renders and their resolved target paths.
    pub fn new(
        renders: Vec<PatinaFileRender>,
        target_paths: &Vec<String>,
        use_trash: bool,
    ) -> (r: ApplyRun)
        requires
            renders@.len() == target_paths@.len(),
        ensures
            r.wf(),
            r.phase == ApplyPhase::Ready,
            r.idx == 0,
            r.num_trashed == 0,
            r.use_trash == use_trash,
            items_view(r.items@).len() == renders@.len(),
            forall|i: int|
                0 <= i < renders@.len() ==> ({
                    let it = #[trigger] items_view(r.items@)[i];
                    it.path == target_paths@[i]@ && it.content == renders@[i]@.render_str
                        && it.any_changes == renders@[i]@.any_changes
                }),
    {
        let ghost rviews0 = renders_view(renders@);
        let mut renders = renders;
        let mut items: Vec<ApplyItem> = Vec::new();
        let mut i: usize = 0;
        let n = renders.len();
        proof {
            assert(rviews0.len() == n);
        }
        while i < n
            invariant
                i <= n,
                n == rviews0.len(),
                n == target_paths@.len(),
                renders@.len() == n - i,
                forall|j: int| 0 <= j < n - i ==> #[trigger] renders@[j]@ == rviews0[i + j],
                items@.len() == i,
                forall|j: int|
                    0 <= j < i ==> ({
                        let it = (#[trigger] items@[j])@;
                        it.path == target_paths@[j]@ && it.content == rviews0[j].render_str
                            && it.any_changes == rviews0[j].any_changes
                    }),
            decreases n - i,
        {
            proof {
                assert(renders@[0]@ == rviews0[i as int]);
            }
            let rd = renders.remove(0);
            items.push(
                ApplyItem {
                    path: target_paths[i].clone(),
                    content: rd.render_str,
                    any_changes: rd.any_changes,
                },
            );
            i += 1;
        }
        let r = ApplyRun { items, use_trash, idx: 0, num_trashed: 0, phase: ApplyPhase::Ready };
        proof {
            assert(items_view(r.items@).len() == n);
            assert forall|j: int| 0 <= j < n implies ({
                let it = #[trigger] items_view(r.items@)[j];
                it.path == target_paths@[j]@ && it.content == rviews0[j].render_str
                    && it.any_changes == rviews0[j].any_changes
            }) by {
                assert(items_view(r.items@)[j] == r.items@[j]@);
            }
        }
        r
    }

    /// Step past unchanged files from the current index and stop at the
    /// first file that needs work, finishing the run when none is left.
    fn advance(&mut self, prefix: String) -> (r: (ApplyCmd, String))
        requires
            old(self).idx <= old(self).items@.len(),
            old(self).num_trashed <= old(self).idx,
        ensures
            final(self).wf(),
            final(self).idx >= old(self).idx,
            final(self).num_trashed <= final(self).idx,
            final(self).items@ == old(self).items@,
            final(self).use_trash == old(self).use_trash,
            final(self).num_trashed == old(self).num_trashed,
            advance_post(
                items_view(old(self).items@),
                old(self).idx as int,
                old(self).num_trashed as int,
                old(self).use_trash,
                final(self).idx as int,
                final(self).phase,
                r.0,
                r.1@,
                prefix@,
            ),
    {
        let ghost items = items_view(self.items@);
        let ghost idx0 = self.idx;
        let mut out = prefix;
        proof {
            assert(items.len() == self.items@.len());
            assert(out@ + skip_output(items, idx0 as int) =~= prefix@ + skip_output(
                items,
                idx0 as int,
            ));
        }
        while self.idx < self.items.len() && matches!(
            self.items[self.idx].any_changes,
            Some(false),
        )
            invariant
                idx0 <= self.idx <= self.items@.len(),
                items == items_view(self.items@),
                items.len() == self.items@.len(),
                self.items@ == old(self).items@,
                self.use_trash == old(self).use_trash,
                self.num_trashed == old(self).num_trashed,
                self.phase == old(self).phase,
                idx0 == old(self).idx,
                first_active(items, idx0 as int) == first_active(items, self.idx as int),
                prefix@ + skip_output(items, idx0 as int) == out@ + skip_output(
                    items,
                    self.idx as int,
                ),
            decreases self.items@.len() - self.idx,
        {
            proof {
                assert(items[self.idx as int] == self.items@[self.idx as int]@);
            }
            let ghost out0 = out@;
            out.append("   ");
            out.append(self.items[self.idx].path.as_str());
            out.append(" \u{2713} (no change)\n");
            proof {
                assert(out@ =~= out0 + ("   "@ + items[self.idx as int].path
                    + " \u{2713} (no change)\n"@));
                assert(out0 + (("   "@ + items[self.idx as int].path
                    + " \u{2713} (no change)\n"@) + skip_output(items, self.idx + 1)) =~= out@
                    + skip_output(items, self.idx + 1));
            }
            self.idx = self.idx + 1;
        }
        proof {
            assert(items.len() == self.items@.len());
            if self.idx < self.items.len() {
                assert(items[self.idx as int] == self.items@[self.idx as int]@);
            }
            assert(first_active(items, self.idx as int) == self.idx as int || first_active(
                items,
                self.idx as int,
            ) == items.len() as int);
            assert(skip_output(items, self.idx as int) =~= Seq::<char>::empty());
            assert(out@ =~= prefix@ + skip_output(items, idx0 as int));
        }
        if self.idx == self.items.len() {
            self.phase = ApplyPhase::Finished;
            proof {
                assert(out@ + Seq::<char>::empty() =~= out@);
            }
            (ApplyCmd::Done { num_trashed: self.num_trashed }, out)
        } else {
            let ghost out0 = out@;
            let path = self.items[self.idx].path.clone();
            out.append("   ");
            out.append(path.as_str());
            proof {
                assert(out@ =~= out0 + ("   "@ + items[self.idx as int].path));
            }
            let changed = matches!(self.items[self.idx].any_changes, Some(true));
            if self.use_trash && changed {
                self.phase = ApplyPhase::AwaitCheck;
                (ApplyCmd::CheckTarget { path }, out)
            } else {
                self.phase = ApplyPhase::AwaitWrite;
                let content = self.items[self.idx].content.clone();
                (ApplyCmd::WriteTarget { path, content }, out)
            }
        }
    }

    /// Feed the outcome of the last command back into the run and receive
    /// the next command, with any text to display. `Begin` starts the run;
    /// after a `CheckTarget`, `TrashTarget` or `WriteTarget` command the
    /// matching outcome event is expected.
    pub fn next(&mut self, ev: ApplyEvent) -> (r: (ApplyCmd, String))
        requires
            old(self).wf(),
            match old(self).phase {
                ApplyPhase::Ready => ev is Begin,
                ApplyPhase::AwaitCheck => ev is TargetIsFile,
                ApplyPhase::AwaitTrash => ev is Trashed,
                ApplyPhase::AwaitWrite => ev is Wrote,
                ApplyPhase::Finished => false,
            },
        ensures
            final(self).wf(),
            final(self).items@ == old(self).items@,
            final(self).use_trash == old(self).use_trash,
            ({
                let items = items_view(old(self).items@);
                let i = old(self).idx as int;
                match ev {
                    ApplyEvent::Begin => final(self).num_trashed == old(self).num_trashed
                        && advance_post(
                        items,
                        i,
                        old(self).num_trashed as int,
                        old(self).use_trash,
                        final(self).idx as int,
                        final(self).phase,
                        r.0,
                        r.1@,
                        Seq::empty(),
                    ),
                    ApplyEvent::TargetIsFile(b) => final(self).num_trashed == old(self).num_trashed
                        && final(self).idx == old(self).idx && r.1@ == Seq::<char>::empty() && (
                    if b {
                        final(self).phase == ApplyPhase::AwaitTrash && (r.0 matches
                        ApplyCmd::TrashTarget { path } && path@ == items[i].path)
                    } else {
                        final(self).phase == ApplyPhase::AwaitWrite && (r.0 matches
                        ApplyCmd::WriteTarget { path, content } && path@ == items[i].path
                            && content@ == items[i].content)
                    }),
                    ApplyEvent::Trashed(outcome) => (match outcome {
                        None => final(self).num_trashed == old(self).num_trashed + 1 && final(self).idx == old(self).idx && final(self).phase == ApplyPhase::AwaitWrite && (
                        r.0 matches ApplyCmd::WriteTarget { path, content } && path@
                            == items[i].path && content@ == items[i].content) && r.1@ == Seq::<
                            char,
                        >::empty(),
                        Some(cause) => final(self).num_trashed == old(self).num_trashed && final(self).phase == ApplyPhase::Finished && (r.0 matches ApplyCmd::Failed { error }
                            && error@ == ErrSpec::MoveFileToTrash(cause@)) && r.1@ == Seq::<
                            char,
                        >::empty(),
                    }),
                    ApplyEvent::Wrote(outcome) => (match outcome {
                        None => final(self).num_trashed == old(self).num_trashed && advance_post(
                            items,
                            i + 1,
                            old(self).num_trashed as int,
                            old(self).use_trash,
                            final(self).idx as int,
                            final(self).phase,
                            r.0,
                            r.1@,
                            " \u{2713}\n"@,
                        ),
                        Some(cause) => final(self).num_trashed == old(self).num_trashed && final(self).phase == ApplyPhase::Finished && (r.0 matches ApplyCmd::Failed { error }
                            && error@ == ErrSpec::FileWrite(items[i].path, cause@)) && r.1@
                            == Seq::<char>::empty(),
                    }),
                }
            }),
    {
        match ev {
            ApplyEvent::Begin => self.advance(String::new()),
            ApplyEvent::TargetIsFile(b) => {
                let path = self.items[self.idx].path.clone();
                if b {
                    self.phase = ApplyPhase::AwaitTrash;
                    (ApplyCmd::TrashTarget { path }, String::new())
                } else {
                    self.phase = ApplyPhase::AwaitWrite;
                    let content = self.items[self.idx].content.clone();
                    (ApplyCmd::WriteTarget { path, content }, String::new())
                }
            },
            ApplyEvent::Trashed(outcome) => {
                match outcome {
                    None => {
                        let n = self.items.len();
                        proof {
                            assert(self.num_trashed < n);
                        }
                        self.num_trashed = self.num_trashed + 1;
                        self.phase = ApplyPhase::AwaitWrite;
                        let path = self.items[self.idx].path.clone();
                        let content = self.items[self.idx].content.clone();
                        (ApplyCmd::WriteTarget { path, content }, String::new())
                    },
                    Some(cause) => {
                        self.phase = ApplyPhase::Finished;
                        (ApplyCmd::Failed { error: Error::MoveFileToTrash(cause) }, String::new())
                    },
                }
            },
            ApplyEvent::Wrote(outcome) => {
                match outcome {
                    None => {
                        let n = self.items.len();
                        proof {
                            assert(self.idx < n);
                        }
                        self.idx = self.idx + 1;
                        self.advance(String::from_str(" \u{2713}\n"))
                    },
                    Some(cause) => {
                        self.phase = ApplyPhase::Finished;
                        let path = self.items[self.idx].path.clone();
                        (ApplyCmd::Failed { error: Error::FileWrite(path, cause) }, String::new())
                    },
                }
            },
        }
    }
}

} // verus!

