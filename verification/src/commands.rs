//! The command lines of the Skills Manager CLI that the desktop and web front
//! ends run for bundles, presets, skill deployment and Git backup.

use vstd::prelude::*;

use crate::bundle::{
    reported_error, structurally_valid, validate_structure, BundleError, BundleManifest,
};
use crate::text::{str_equal, texts};

verus! {

/// Appends the characters of `s` to a list of arguments.
pub(crate) fn push_text(v: &mut Vec<String>, s: &str)
    ensures
        texts(final(v)@) == texts(old(v)@).push(s@),
{
    v.push(s.to_owned());
    assert(texts(v@) =~= texts(old(v)@).push(s@));
}

/// A list of arguments made of the given texts.
fn text_list(parts: &[&str]) -> (r: Vec<String>)
    ensures
        texts(r@) == parts@.map_values(|p: &str| p@),
{
    let mut r: Vec<String> = Vec::new();
    let mut i: usize = 0;
    while i < parts.len()
        invariant
            i <= parts.len(),
            texts(r@) == parts@.subrange(0, i as int).map_values(|p: &str| p@),
        decreases parts.len() - i,
    {
        push_text(&mut r, parts[i]);
        assert(parts@.subrange(0, i + 1).map_values(|p: &str| p@) =~= parts@.subrange(
            0,
            i as int,
        ).map_values(|p: &str| p@).push(parts@[i as int]@));
        i = i + 1;
    }
    assert(parts@.subrange(0, parts.len() as int) =~= parts@);
    r
}

/// Bundle deployment targets Codex and Hermes only.
pub open spec fn supported_agent(agent: Seq<char>) -> bool {
    agent == "codex"@ || agent == "hermes"@
}

/// Whether bundles can be deployed to `agent`.
pub fn is_supported_agent(agent: &str) -> (r: bool)
    ensures
        r == supported_agent(agent@),
{
    str_equal(agent, "codex") || str_equal(agent, "hermes")
}

/// The agent named for a bundle deployment is neither Codex nor Hermes.
#[derive(Debug)]
pub struct UnsupportedAgent;

impl UnsupportedAgent {
    /// The text with which the desktop application refuses the deployment.
    pub fn message(&self) -> (r: String)
        ensures
            r@ == "unsupported bundle agent"@,
    {
        "unsupported bundle agent".to_owned()
    }
}

pub open spec fn list_bundles_arguments() -> Seq<Seq<char>> {
    seq!["bundles"@, "list"@]
}

pub open spec fn save_bundle_arguments(original_slug: Option<Seq<char>>, path: Seq<char>) -> Seq<
    Seq<char>,
> {
    match original_slug {
        Some(slug) => seq!["bundles"@, "update"@, slug, path],
        None => seq!["bundles"@, "import"@, path],
    }
}

pub open spec fn delete_bundle_arguments(slug: Seq<char>) -> Seq<Seq<char>> {
    seq!["bundles"@, "delete"@, slug]
}

pub open spec fn deploy_bundle_arguments(
    slug: Seq<char>,
    agent: Seq<char>,
    dry_run: bool,
    undeploy: bool,
) -> Seq<Seq<char>> {
    seq![
        "bundles"@,
        if undeploy {
            "undeploy"@
        } else {
            "deploy"@
        },
        slug,
        "--agent"@,
        agent,
    ] + if dry_run {
        seq!["--dry-run"@]
    } else {
        Seq::<Seq<char>>::empty()
    }
}

/// The CLI arguments that list the bundles.
pub fn list_bundles() -> (r: Vec<String>)
    ensures
        texts(r@) == list_bundles_arguments(),
{
    let r = text_list(&["bundles", "list"]);
    assert(texts(r@) =~= list_bundles_arguments());
    r
}

/// A save of a manifest that passed validation: what is left is the path the
/// manifest is written to.
pub struct SaveArguments {
    original_slug: Option<String>,
}

impl SaveArguments {
    /// The bundle that the save updates, if it updates one.
    pub closed spec fn updated_slug(&self) -> Option<Seq<char>> {
        optional_text_of(self.original_slug)
    }

    /// The CLI arguments that save the manifest once it is written at `path`.
    pub fn for_path(&self, path: &str) -> (r: Vec<String>)
        ensures
            texts(r@) == save_bundle_arguments(self.updated_slug(), path@),
    {
        match &self.original_slug {
            Some(slug) => {
                let r = text_list(&["bundles", "update", slug.as_str(), path]);
                assert(texts(r@) =~= seq!["bundles"@, "update"@, slug@, path@]);
                r
            },
            None => {
                let r = text_list(&["bundles", "import", path]);
                assert(texts(r@) =~= seq!["bundles"@, "import"@, path@]);
                r
            },
        }
    }
}

pub open spec fn optional_text_of(o: Option<String>) -> Option<Seq<char>> {
    match o {
        Some(s) => Some(s@),
        None => None,
    }
}

/// Saves a manifest: it is validated first, and only a valid manifest yields
/// the arguments that import it, or update the bundle `original_slug`.
pub fn save_bundle(manifest: &BundleManifest, original_slug: Option<&str>) -> (r: Result<
    SaveArguments,
    BundleError,
>)
    ensures
        r is Ok <==> structurally_valid(manifest@),
        r matches Err(e) ==> reported_error(manifest@, e@),
        r matches Ok(s) ==> s.updated_slug() == match original_slug {
            Some(o) => Some(o@),
            None => None::<Seq<char>>,
        },
{
    match validate_structure(manifest) {
        Err(e) => Err(e),
        Ok(()) => {
            let slug = match original_slug {
                Some(o) => Some(o.to_owned()),
                None => None,
            };
            Ok(SaveArguments { original_slug: slug })
        },
    }
}

/// The CLI arguments that delete the bundle `slug`.
pub fn delete_bundle(slug: &str) -> (r: Vec<String>)
    ensures
        texts(r@) == delete_bundle_arguments(slug@),
{
    let r = text_list(&["bundles", "delete", slug]);
    assert(texts(r@) =~= delete_bundle_arguments(slug@));
    r
}

/// The CLI arguments that deploy (or undeploy) the entry skill of bundle
/// `slug` to `agent`, possibly as a dry run; only Codex and Hermes are
/// accepted.
pub fn deploy_bundle(slug: &str, agent: &str, dry_run: bool, undeploy: bool) -> (r: Result<
    Vec<String>,
    UnsupportedAgent,
>)
    ensures
        r is Ok <==> supported_agent(agent@),
        r matches Ok(v) ==> texts(v@) == deploy_bundle_arguments(slug@, agent@, dry_run, undeploy),
{
    if !is_supported_agent(agent) {
        return Err(UnsupportedAgent);
    }
    let action = if undeploy {
        "undeploy"
    } else {
        "deploy"
    };
    let mut r = text_list(&["bundles", action, slug, "--agent", agent]);
    if dry_run {
        push_text(&mut r, "--dry-run");
    }
    assert(texts(r@) =~= deploy_bundle_arguments(slug@, agent@, dry_run, undeploy));
    Ok(r)
}

} // verus!
