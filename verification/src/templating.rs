//! Rendering a Patina's templates against its variables tree.
//! Templates use the Handlebars templating language.

use vstd::prelude::*;

use crate::patina::{selected_files, opt_tags_view, sources_view, Patina};
use crate::patina_file::{PatinaFile, PatinaFileSpec};
use crate::utils::{ErrSpec, Error};
use crate::vars::{VarValue, Vval};

verus! {

/// Specification-level shape of a [`PatinaFileRender`].
pub struct PatinaFileRenderSpec {
    /// The record the render came from
    pub patina_file: PatinaFileSpec,
    /// Whether the render differs from the target, once diffed
    pub any_changes: Option<bool>,
    /// The full rendered text
    pub render_str: Seq<char>,
}

/// A rendered file: the record it came from and the rendered text.
#[derive(Debug)]
pub struct PatinaFileRender {
    /// The record the render came from
    pub patina_file: PatinaFile,
    /// Whether the render differs from the target:
    /// `None` until diffed, then the diff's outcome
    pub any_changes: Option<bool>,
    /// The full rendered text for this file
    pub render_str: String,
}

impl View for PatinaFileRender {
    type V = PatinaFileRenderSpec;

    open spec fn view(&self) -> PatinaFileRenderSpec {
        PatinaFileRenderSpec {
            patina_file: self.patina_file@,
            any_changes: self.any_changes,
            render_str: self.render_str@,
        }
    }
}

/// The views of a list of renders.
pub open spec fn renders_view(v: Seq<PatinaFileRender>) -> Seq<PatinaFileRenderSpec> {
    v.map_values(|r: PatinaFileRender| r@)
}

/// What the Handlebars engine returns for a template and a variables tree,
/// in strict mode and without HTML escaping: the rendered text, or the
/// engine's diagnostic.
pub uninterp spec fn hb_render(template: Seq<char>, vars: Option<Vval>) -> Result<
    Seq<char>,
    Seq<char>,
>;

/// The view of an optional variables tree.
pub open spec fn opt_vars_view(v: Option<VarValue>) -> Option<Vval> {
    match v {
        Some(t) => Some(crate::vars::vv_model(t)),
        None => None,
    }
}

/// Relies on handlebars::Handlebars::render_template with strict mode on
/// and HTML escaping off: renders the template against the variables tree,
/// or fails with the engine's diagnostic (a missing variable path, or a
/// template syntax error). The outcome is a function of the template text
/// and the variables alone.
#[verifier::external_body]
fn hb_render_template(template: &str, vars: &Option<VarValue>) -> (r: Result<String, String>)
    ensures
        match r {
            Ok(s) => hb_render(template@, opt_vars_view(*vars)) == Ok::<Seq<char>, Seq<char>>(s@),
            Err(e) => hb_render(template@, opt_vars_view(*vars)) == Err::<Seq<char>, Seq<char>>(
                e@,
            ),
        },
{
    let mut hb = handlebars::Handlebars::new();
    hb.register_escape_fn(handlebars::no_escape);
    hb.set_strict_mode(true);
    let ctx = match vars {
        Some(v) => Some(crate::vars::vars_to_json(v)),
        None => None,
    };
    match hb.render_template(template, &ctx) {
        Ok(s) => Ok(s),
        Err(e) => Err(e.reason().to_string()),
    }
}

/// One render step: `src` carries the resolved path of the entry's template
/// and what reading it yielded; an unreadable template or a failed render is
/// the step's error, a rendering failure attributed to the entry's template
/// as written.
pub open spec fn render_one_spec(
    f: PatinaFileSpec,
    vars: Option<Vval>,
    src: (Seq<char>, Result<Seq<char>, Seq<char>>),
) -> Result<PatinaFileRenderSpec, ErrSpec> {
    match src.1 {
        Err(cause) => Err(ErrSpec::FileRead(src.0, cause)),
        Ok(t) => match hb_render(t, vars) {
            Err(d) => Err(ErrSpec::RenderTemplate(f.template, d)),
            Ok(out) => Ok(
                PatinaFileRenderSpec { patina_file: f, any_changes: None, render_str: out },
            ),
        },
    }
}

/// The renders of the selected entries, in order and all-or-nothing: the
/// first failure is the whole run's error.
pub open spec fn render_all_spec(
    files: Seq<PatinaFileSpec>,
    vars: Option<Vval>,
    srcs: Seq<(Seq<char>, Result<Seq<char>, Seq<char>>)>,
) -> Result<Seq<PatinaFileRenderSpec>, ErrSpec>
    decreases files.len(),
{
    if files.len() == 0 {
        Ok(Seq::empty())
    } else {
        match render_one_spec(files[0], vars, srcs[0]) {
            Err(e) => Err(e),
            Ok(r) => match render_all_spec(files.drop_first(), vars, srcs.drop_first()) {
                Ok(rest) => Ok(seq![r] + rest),
                Err(e) => Err(e),
            },
        }
    }
}

/// Render every entry of the Patina selected by the tag filter, in
/// declaration order. `template_sources[i]` carries the resolved path of
/// the i-th selected entry's template and what reading it yielded. All
/// renders must succeed; the first failure aborts the whole run.
pub fn render_patina(
    patina: &Patina,
    tags: Option<Vec<String>>,
    template_sources: Vec<(String, Result<String, String>)>,
) -> (r: Result<Vec<PatinaFileRender>, Error>)
    requires
        template_sources@.len() == selected_files(patina@.files, opt_tags_view(tags)).len(),
    ensures
        match r {
            Ok(renders) => render_all_spec(
                selected_files(patina@.files, opt_tags_view(tags)),
                patina@.vars,
                sources_view(template_sources@),
            ) == Ok::<Seq<PatinaFileRenderSpec>, ErrSpec>(renders_view(renders@)),
            Err(e) => render_all_spec(
                selected_files(patina@.files, opt_tags_view(tags)),
                patina@.vars,
                sources_view(template_sources@),
            ) == Err::<Seq<PatinaFileRenderSpec>, ErrSpec>(e@),
        },
{
    let mut selected = patina.files_for_tags(tags);
    let ghost sel0 = selected@.map_values(|f: PatinaFile| f@);
    let ghost srcs = sources_view(template_sources@);
    let ghost vars = patina@.vars;
    let n = selected.len();
    proof {
        assert(srcs.len() == template_sources@.len());
        assert(sel0.skip(0) =~= sel0);
        assert(srcs.skip(0) =~= srcs);
    }
    let mut out: Vec<PatinaFileRender> = Vec::new();
    let mut i: usize = 0;
    proof {
        assert(renders_view(out@) =~= Seq::<PatinaFileRenderSpec>::empty());
        assert forall|rest: Seq<PatinaFileRenderSpec>|
            Seq::<PatinaFileRenderSpec>::empty() + rest =~= rest by {}
    }
    while i < n
        invariant
            i <= n,
            n == sel0.len(),
            srcs == sources_view(template_sources@),
            srcs.len() == n,
            template_sources@.len() == n,
            vars == patina@.vars,
            sel0 == selected_files(patina@.files, opt_tags_view(tags)),
            selected@.map_values(|f: PatinaFile| f@) =~= sel0.skip(i as int),
            selected@.len() == n - i,
            render_all_spec(sel0, vars, srcs) == (match render_all_spec(
                sel0.skip(i as int),
                vars,
                srcs.skip(i as int),
            ) {
                Ok(rest) => Ok::<Seq<PatinaFileRenderSpec>, ErrSpec>(renders_view(out@) + rest),
                Err(e) => Err::<Seq<PatinaFileRenderSpec>, ErrSpec>(e),
            }),
        decreases n - i,
    {
        proof {
            assert(sel0.skip(i as int)[0] == sel0[i as int]);
            assert(sel0.skip(i as int).drop_first() =~= sel0.skip(i + 1));
            assert(srcs.skip(i as int)[0] == srcs[i as int]);
            assert(srcs.skip(i as int).drop_first() =~= srcs.skip(i + 1));
            assert(srcs[i as int] == (template_sources@[i as int].0@, (
            match template_sources@[i as int].1 {
                Ok(s) => Ok::<Seq<char>, Seq<char>>(s@),
                Err(c) => Err::<Seq<char>, Seq<char>>(c@),
            })));
            assert(selected@[0]@ == sel0.skip(i as int)[0]);
        }
        let pf = selected.remove(0);
        proof {
            assert(selected@.map_values(|f: PatinaFile| f@) =~= sel0.skip(i + 1));
        }
        let text = match &template_sources[i].1 {
            Ok(t) => t,
            Err(cause) => {
                return Err(
                    Error::FileRead(template_sources[i].0.clone(), cause.clone()),
                );
            },
        };
        let rendered = match hb_render_template(text.as_str(), &patina.vars) {
            Ok(s) => s,
            Err(d) => {
                return Err(Error::RenderTemplate(pf.template.clone(), d));
            },
        };
        let ghost pf_view = pf@;
        let render = PatinaFileRender { patina_file: pf, any_changes: None, render_str: rendered };
        let ghost out0 = out@;
        let ghost rv = render@;
        out.push(render);
        proof {
            assert(renders_view(out@) =~= renders_view(out0) + seq![rv]);
            assert forall|rest: Seq<PatinaFileRenderSpec>|
                renders_view(out0) + (seq![rv] + rest) =~= renders_view(out@) + rest by {}
        }
        i += 1;
    }
    proof {
        assert(sel0.skip(n as int) =~= Seq::<PatinaFileSpec>::empty());
        assert(renders_view(out@) + Seq::<PatinaFileRenderSpec>::empty() =~= renders_view(out@));
    }
    Ok(out)
}

} // verus!
