//! What the slug rule, the access rule, the command lines and the request
//! routes promise, stated with literal texts.

use vstd::prelude::*;
use vstd::utf8::encode_utf8;

use crate::bundle::{structurally_valid, ManifestModel};
use crate::commands::{
    delete_bundle_arguments, deploy_bundle_arguments, list_bundles_arguments, save_bundle_arguments,
    supported_agent,
};
use crate::text::{decimal, spec_valid_slug};
use crate::web::{access_decision, cli_request_arguments, route_of, AccessDenied, CliRequest, WebRoute};

verus! {

// ---------------------------------------------------------------------------
// Slugs
// ---------------------------------------------------------------------------

/// A slug is exactly a non-empty text of lowercase ASCII letters, digits and
/// hyphens that neither starts nor ends with a hyphen and never holds two
/// hyphens in a row; its length is not limited.
pub proof fn lemma_slug_rule(s: Seq<char>)
    ensures
        spec_valid_slug(s) <==> {
            &&& s.len() > 0
            &&& forall|c: char|
                s.contains(c) ==> ('a' <= c && c <= 'z') || ('0' <= c && c <= '9') || c == '-'
            &&& s.first() != '-'
            &&& s.last() != '-'
            &&& forall|i: int| 0 <= i < s.len() - 1 ==> #[trigger] s.subrange(i, i + 2) != seq!['-', '-']
        },
{
    if spec_valid_slug(s) {
        assert forall|c: char| s.contains(c) implies ('a' <= c && c <= 'z') || ('0' <= c && c
            <= '9') || c == '-' by {
            let i = choose|i: int| 0 <= i < s.len() && s[i] == c;
            assert(crate::text::is_slug_char(s[i]));
        }
        assert forall|i: int| 0 <= i < s.len() - 1 implies #[trigger] s.subrange(i, i + 2) != seq![
            '-',
            '-',
        ] by {
            assert(!(s[i] == '-' && s[i + 1] == '-'));
            if s.subrange(i, i + 2) == seq!['-', '-'] {
                assert(s.subrange(i, i + 2)[0] == s[i]);
                assert(s.subrange(i, i + 2)[1] == s[i + 1]);
            }
        }
    }
    if s.len() > 0 && (forall|c: char|
        s.contains(c) ==> ('a' <= c && c <= 'z') || ('0' <= c && c <= '9') || c == '-') && s.first()
        != '-' && s.last() != '-' && (forall|i: int|
        0 <= i < s.len() - 1 ==> #[trigger] s.subrange(i, i + 2) != seq!['-', '-']) {
        assert forall|i: int| 0 <= i < s.len() implies crate::text::is_slug_char(#[trigger] s[i]) by {
            assert(s.contains(s[i]));
        }
        assert forall|i: int| 0 <= i < s.len() - 1 implies !(#[trigger] s[i] == '-' && s[i + 1]
            == '-') by {
            if s[i] == '-' && s[i + 1] == '-' {
                assert(s.subrange(i, i + 2) =~= seq!['-', '-']);
            }
        }
    }
}

/// Replacing the slug of a manifest by another text that follows the slug
/// rule, whatever its length, does not change whether the manifest is
/// accepted.
pub proof fn lemma_any_rule_abiding_slug_is_accepted(m: ManifestModel, slug: Seq<char>)
    requires
        slug.len() > 0,
        forall|i: int|
            0 <= i < slug.len() ==> ('a' <= #[trigger] slug[i] && slug[i] <= 'z') || ('0'
                <= slug[i] && slug[i] <= '9') || slug[i] == '-',
        slug[0] != '-',
        slug[slug.len() - 1] != '-',
        forall|i: int| 0 <= i < slug.len() - 1 ==> !(#[trigger] slug[i] == '-' && slug[i + 1] == '-'),
        spec_valid_slug(m.slug),
    ensures
        structurally_valid(m) <==> structurally_valid(ManifestModel { slug, ..m }),
{
    lemma_slug_rule(slug);
    assert forall|c: char| slug.contains(c) implies ('a' <= c && c <= 'z') || ('0' <= c && c
        <= '9') || c == '-' by {
        let i = choose|i: int| 0 <= i < slug.len() && slug[i] == c;
    }
    assert forall|i: int| 0 <= i < slug.len() - 1 implies #[trigger] slug.subrange(i, i + 2) != seq![
        '-',
        '-',
    ] by {
        if slug.subrange(i, i + 2) == seq!['-', '-'] {
            assert(slug.subrange(i, i + 2)[0] == slug[i]);
            assert(slug.subrange(i, i + 2)[1] == slug[i + 1]);
        }
    }
    assert(spec_valid_slug(slug));
}

// ---------------------------------------------------------------------------
// Access
// ---------------------------------------------------------------------------

/// Once the `Host` header is accepted, an `Origin` header made of the UTF-8
/// bytes of `http://` and that same host is never a reason to refuse: the
/// decision is the one taken without any `Origin` header.
pub proof fn lemma_same_origin_is_accepted(
    expected_host: Seq<char>,
    is_loopback: bool,
    port: u16,
    host: Seq<char>,
    token: Option<Seq<char>>,
    authorization: Option<Seq<char>>,
)
    requires
        host == expected_host || (is_loopback && host == "localhost:"@ + decimal(port as nat)),
    ensures
        access_decision(
            expected_host,
            is_loopback,
            port,
            host,
            Some(encode_utf8("http://"@ + host)),
            token,
            authorization,
        ) == access_decision(expected_host, is_loopback, port, host, None, token, authorization),
        !(access_decision(
            expected_host,
            is_loopback,
            port,
            host,
            Some(encode_utf8("http://"@ + host)),
            token,
            authorization,
        ) matches Some(AccessDenied::InvalidOrigin)),
        !(access_decision(
            expected_host,
            is_loopback,
            port,
            host,
            Some(encode_utf8("http://"@ + host)),
            token,
            authorization,
        ) matches Some(AccessDenied::InvalidHost)),
{
}

/// Once the `Host` header is accepted, any `Origin` header whose bytes are not
/// those of `http://` and that host is refused as an invalid origin.
pub proof fn lemma_foreign_origin_is_refused(
    expected_host: Seq<char>,
    is_loopback: bool,
    port: u16,
    host: Seq<char>,
    origin: Seq<u8>,
    token: Option<Seq<char>>,
    authorization: Option<Seq<char>>,
)
    requires
        host == expected_host || (is_loopback && host == "localhost:"@ + decimal(port as nat)),
        origin != encode_utf8("http://"@ + host),
    ensures
        access_decision(expected_host, is_loopback, port, host, Some(origin), token, authorization)
            matches Some(AccessDenied::InvalidOrigin),
{
}

// ---------------------------------------------------------------------------
// Command lines
// ---------------------------------------------------------------------------

/// The deployment command line is `bundles deploy <slug> --agent <agent>`
/// (`undeploy` in place of `deploy` for an undeployment), followed by
/// `--dry-run` exactly when a dry run is asked for, whether deploying or not.
pub proof fn lemma_deploy_command_line(slug: Seq<char>, agent: Seq<char>, dry_run: bool, undeploy: bool)
    ensures
        ({
            let a = deploy_bundle_arguments(slug, agent, dry_run, undeploy);
            &&& a.len() == if dry_run {
                6int
            } else {
                5int
            }
            &&& a[0] == "bundles"@
            &&& a[1] == if undeploy {
                "undeploy"@
            } else {
                "deploy"@
            }
            &&& a[2] == slug
            &&& a[3] == "--agent"@
            &&& a[4] == agent
            &&& dry_run ==> a[5] == "--dry-run"@
        }),
        deploy_bundle_arguments(slug, agent, dry_run, true).len() == deploy_bundle_arguments(
            slug,
            agent,
            dry_run,
            false,
        ).len(),
{
}

/// Saving a manifest written at `path` updates the bundle it came from when
/// there is one (`bundles update <slug> <path>`) and imports it otherwise
/// (`bundles import <path>`); listing is `bundles list`, deleting is
/// `bundles delete <slug>`.
pub proof fn lemma_bundle_command_lines(original_slug: Option<Seq<char>>, path: Seq<char>, slug: Seq<char>)
    ensures
        save_bundle_arguments(original_slug, path) == match original_slug {
            Some(o) => seq!["bundles"@, "update"@, o, path],
            None => seq!["bundles"@, "import"@, path],
        },
        list_bundles_arguments() == seq!["bundles"@, "list"@],
        delete_bundle_arguments(slug) == seq!["bundles"@, "delete"@, slug],
{
}

/// The command line of each request forwarded to the CLI names its own
/// operation: `git pull` for a pull, `git push` for a push, `skills undeploy`
/// for an undeployment, and so on.
pub proof fn lemma_cli_command_lines(req: CliRequest)
    ensures
        match req {
            CliRequest::ListBundles => cli_request_arguments(req) == Some(seq!["bundles"@, "list"@]),
            CliRequest::DeleteBundle { slug } => cli_request_arguments(req) == Some(
                seq!["bundles"@, "delete"@, slug@],
            ),
            CliRequest::DeployBundle { slug, agent, undeploy, dry_run } => if supported_agent(
                agent@,
            ) {
                cli_request_arguments(req) == Some(
                    seq![
                        "bundles"@,
                        if undeploy {
                            "undeploy"@
                        } else {
                            "deploy"@
                        },
                        slug@,
                        "--agent"@,
                        agent@,
                    ] + if dry_run {
                        seq!["--dry-run"@]
                    } else {
                        Seq::<Seq<char>>::empty()
                    },
                )
            } else {
                cli_request_arguments(req) is None
            },
            CliRequest::CreatePreset { name, description, icon } => cli_request_arguments(req)
                == Some(
                seq!["presets"@, "create"@, name@] + match description {
                    Some(d) => seq!["--description"@, d@],
                    None => Seq::<Seq<char>>::empty(),
                } + match icon {
                    Some(i) => seq!["--icon"@, i@],
                    None => Seq::<Seq<char>>::empty(),
                },
            ),
            CliRequest::DeletePreset { id } => cli_request_arguments(req) == Some(
                seq!["presets"@, "delete"@, id@, "--yes"@],
            ),
            CliRequest::ApplyPreset { id } => cli_request_arguments(req) == Some(
                seq!["presets"@, "apply"@, id@],
            ),
            CliRequest::AddSkillToPreset { preset_id, skill_id } => cli_request_arguments(req)
                == Some(seq!["presets"@, "add-skill"@, preset_id@, skill_id@]),
            CliRequest::RemoveSkillFromPreset { preset_id, skill_id } => cli_request_arguments(req)
                == Some(seq!["presets"@, "remove-skill"@, preset_id@, skill_id@]),
            CliRequest::DeploySkill { skill_id, tool } => cli_request_arguments(req) == Some(
                seq!["skills"@, "deploy"@, skill_id@, "--agent"@, tool@],
            ),
            CliRequest::UndeploySkill { skill_id, tool } => cli_request_arguments(req) == Some(
                seq!["skills"@, "undeploy"@, skill_id@, "--agent"@, tool@],
            ),
            CliRequest::GitInit => cli_request_arguments(req) == Some(seq!["git"@, "init"@]),
            CliRequest::GitPush => cli_request_arguments(req) == Some(seq!["git"@, "push"@]),
            CliRequest::GitPull => cli_request_arguments(req) == Some(seq!["git"@, "pull"@]),
            CliRequest::GitCommit { message } => cli_request_arguments(req) == Some(
                seq!["git"@, "commit"@, "--message"@, message@],
            ),
        },
{
}

// ---------------------------------------------------------------------------
// Routes
// ---------------------------------------------------------------------------

/// Each request name that the web server serves leads to its own route: a
/// pull to a pull, a push to a push, un-syncing a skill to an undeployment,
/// syncing one to a deployment; the two preset names both apply a preset.
pub proof fn lemma_served_routes()
    ensures
        route_of("list_bundles"@) == WebRoute::ListBundles,
        route_of("save_bundle"@) == WebRoute::SaveBundle,
        route_of("delete_bundle"@) == WebRoute::DeleteBundle,
        route_of("deploy_bundle"@) == WebRoute::DeployBundle,
        route_of("create_preset"@) == WebRoute::CreatePreset,
        route_of("delete_preset"@) == WebRoute::DeletePreset,
        route_of("switch_preset"@) == WebRoute::ApplyPreset,
        route_of("apply_preset_to_default"@) == WebRoute::ApplyPreset,
        route_of("add_skill_to_preset"@) == WebRoute::AddSkillToPreset,
        route_of("remove_skill_from_preset"@) == WebRoute::RemoveSkillFromPreset,
        route_of("sync_skill_to_tool"@) == WebRoute::DeploySkill,
        route_of("unsync_skill_from_tool"@) == WebRoute::UndeploySkill,
        route_of("git_backup_init"@) == WebRoute::GitInit,
        route_of("git_backup_push"@) == WebRoute::GitPush,
        route_of("git_backup_pull"@) == WebRoute::GitPull,
        route_of("git_backup_commit"@) == WebRoute::GitCommit,
        route_of("log_startup_event"@) == WebRoute::Ignored,
        route_of("check_last_panic"@) == WebRoute::Ignored,
{
    reveal_strlit("list_bundles");
    reveal_strlit("save_bundle");
    reveal_strlit("delete_bundle");
    reveal_strlit("deploy_bundle");
    reveal_strlit("create_preset");
    reveal_strlit("delete_preset");
    reveal_strlit("switch_preset");
    reveal_strlit("apply_preset_to_default");
    reveal_strlit("add_skill_to_preset");
    reveal_strlit("remove_skill_from_preset");
    reveal_strlit("sync_skill_to_tool");
    reveal_strlit("unsync_skill_from_tool");
    reveal_strlit("git_backup_init");
    reveal_strlit("git_backup_push");
    reveal_strlit("git_backup_pull");
    reveal_strlit("git_backup_commit");
    reveal_strlit("log_startup_event");
    reveal_strlit("check_last_panic");
    assert("list_bundles"@.len() == 12);
    assert("save_bundle"@.len() == 11);
    assert("delete_bundle"@.len() == 13);
    assert("deploy_bundle"@.len() == 13);
    assert("create_preset"@.len() == 13);
    assert("delete_preset"@.len() == 13);
    assert("switch_preset"@.len() == 13);
    assert("apply_preset_to_default"@.len() == 23);
    assert("add_skill_to_preset"@.len() == 19);
    assert("remove_skill_from_preset"@.len() == 24);
    assert("sync_skill_to_tool"@.len() == 18);
    assert("unsync_skill_from_tool"@.len() == 22);
    assert("git_backup_init"@.len() == 15);
    assert("git_backup_push"@.len() == 15);
    assert("git_backup_pull"@.len() == 15);
    assert("git_backup_commit"@.len() == 17);
    assert("log_startup_event"@.len() == 17);
    assert("check_last_panic"@.len() == 16);
    assert("delete_bundle"@[2] != "deploy_bundle"@[2]);
    assert("delete_bundle"@[0] != "create_preset"@[0]);
    assert("delete_bundle"@[7] != "delete_preset"@[7]);
    assert("delete_bundle"@[0] != "switch_preset"@[0]);
    assert("deploy_bundle"@[0] != "create_preset"@[0]);
    assert("deploy_bundle"@[2] != "delete_preset"@[2]);
    assert("deploy_bundle"@[0] != "switch_preset"@[0]);
    assert("create_preset"@[0] != "delete_preset"@[0]);
    assert("create_preset"@[0] != "switch_preset"@[0]);
    assert("delete_preset"@[0] != "switch_preset"@[0]);
    assert("git_backup_init"@[11] != "git_backup_push"@[11]);
    assert("git_backup_init"@[11] != "git_backup_pull"@[11]);
    assert("git_backup_push"@[13] != "git_backup_pull"@[13]);
    assert("git_backup_commit"@[0] != "log_startup_event"@[0]);
}

} // verus!
