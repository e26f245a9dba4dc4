use vstd::prelude::*;
use crate::models::OptimizationTarget;

verus! {

/// The domains of one target: `core` ones must all be optimized for a run to
/// succeed, `optional` ones are best effort.
#[derive(Debug)]
pub struct DomainList {
    pub core: Vec<&'static str>,
    pub optional: Vec<&'static str>,
}

pub open spec fn spec_core_domains(t: OptimizationTarget) -> Seq<&'static str> {
    match t {
        OptimizationTarget::GitHub => seq![
            "github.com",
            "github.githubassets.com",
            "raw.githubusercontent.com",
            "avatars.githubusercontent.com",
        ],
        OptimizationTarget::Cloudflare => seq![
            "dash.cloudflare.com",
            "cloudflare.com",
            "one.one.one.one",
        ],
        OptimizationTarget::NexusMods => seq![
            "www.nexusmods.com",
            "staticdelivery.nexusmods.com",
        ],
    }
}

pub open spec fn spec_optional_domains(t: OptimizationTarget) -> Seq<&'static str> {
    match t {
        OptimizationTarget::GitHub => seq![
            "avatars0.githubusercontent.com",
            "avatars1.githubusercontent.com",
            "avatars2.githubusercontent.com",
            "avatars3.githubusercontent.com",
            "avatars4.githubusercontent.com",
            "avatars5.githubusercontent.com",
            "camo.githubusercontent.com",
            "codeload.github.com",
            "desktop.githubusercontent.com",
            "gist.github.com",
            "github.io",
            "api.github.com",
            "live.github.com",
            "media.githubusercontent.com",
            "central.github.com",
            "cloud.githubusercontent.com",
            "user-images.githubusercontent.com",
            "objects.githubusercontent.com",
            "ghcr.io",
            "github.global.ssl.fastly.net",
        ],
        OptimizationTarget::Cloudflare => seq![
            "api.cloudflare.com",
            "cdnjs.cloudflare.com",
            "images.cloudflare.com",
            "workers.dev",
            "pages.dev",
        ],
        OptimizationTarget::NexusMods => seq![
            "cf-files.nexusmods.com",
            "staticstats.nexusmods.com",
            "users.nexusmods.com",
        ],
    }
}

/// The texts of the core domains of `t`, in catalog order.
pub open spec fn core_names(t: OptimizationTarget) -> Seq<Seq<char>> {
    spec_core_domains(t).map_values(|s: &'static str| s@)
}

/// The texts of all domains of `t`: core ones first, then optional ones.
pub open spec fn all_names(t: OptimizationTarget) -> Seq<Seq<char>> {
    (spec_core_domains(t) + spec_optional_domains(t)).map_values(|s: &'static str| s@)
}

/// The line that opens the target's block in the override file.
pub open spec fn start_marker(t: OptimizationTarget) -> Seq<char> {
    match t {
        OptimizationTarget::GitHub => "# == Github =="@,
        OptimizationTarget::Cloudflare => "# == Cloudflare =="@,
        OptimizationTarget::NexusMods => "# == Nexusmods =="@,
    }
}

/// The line that closes the target's block in the override file.
pub open spec fn end_marker(t: OptimizationTarget) -> Seq<char> {
    match t {
        OptimizationTarget::GitHub => "# ========="@,
        OptimizationTarget::Cloudflare => "# ============"@,
        OptimizationTarget::NexusMods => "# ============"@,
    }
}

/// The static domain catalog of a target.
pub fn get_domains_for_target(target: &OptimizationTarget) -> (r: DomainList)
    ensures
        r.core@ == spec_core_domains(*target),
        r.optional@ == spec_optional_domains(*target),
{
    match target {
        OptimizationTarget::GitHub => DomainList {
            core: vec![
                "github.com",
                "github.githubassets.com",
                "raw.githubusercontent.com",
                "avatars.githubusercontent.com",
            ],
            optional: vec![
                "avatars0.githubusercontent.com",
                "avatars1.githubusercontent.com",
                "avatars2.githubusercontent.com",
                "avatars3.githubusercontent.com",
                "avatars4.githubusercontent.com",
                "avatars5.githubusercontent.com",
                "camo.githubusercontent.com",
                "codeload.github.com",
                "desktop.githubusercontent.com",
                "gist.github.com",
                "github.io",
                "api.github.com",
                "live.github.com",
                "media.githubusercontent.com",
                "central.github.com",
                "cloud.githubusercontent.com",
                "user-images.githubusercontent.com",
                "objects.githubusercontent.com",
                "ghcr.io",
                "github.global.ssl.fastly.net",
            ],
        },
        OptimizationTarget::Cloudflare => DomainList {
            core: vec![
                "dash.cloudflare.com",
                "cloudflare.com",
                "one.one.one.one",
            ],
            optional: vec![
                "api.cloudflare.com",
                "cdnjs.cloudflare.com",
                "images.cloudflare.com",
                "workers.dev",
                "pages.dev",
            ],
        },
        OptimizationTarget::NexusMods => DomainList {
            core: vec![
                "www.nexusmods.com",
                "staticdelivery.nexusmods.com",
            ],
            optional: vec![
                "cf-files.nexusmods.com",
                "staticstats.nexusmods.com",
                "users.nexusmods.com",
            ],
        },
    }
}

/// The start and end marker lines of the target's block.
pub fn block_markers(target: OptimizationTarget) -> (r: (&'static str, &'static str))
    ensures
        r.0@ == start_marker(target),
        r.1@ == end_marker(target),
{
    match target {
        OptimizationTarget::GitHub => ("# == Github ==", "# ========="),
        OptimizationTarget::Cloudflare => ("# == Cloudflare ==", "# ============"),
        OptimizationTarget::NexusMods => ("# == Nexusmods ==", "# ============"),
    }
}

} // verus!
