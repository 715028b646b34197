//! Host storage paths and GPU media settings.
use super::{
    concat_map, err, issues_view, lemma_concat_map_all, lemma_concat_map_step, raise_if, IssueView,
    ValidationReport,
};
use crate::maps::{host_entries, host_map_get_index, host_map_len};
use crate::strs::{copy, s3, s4, s5};
use crate::text::{is_blank, is_blank_str, starts_with, str_eq, str_starts_with};
use crate::topology::{Host, Topology};
use vstd::prelude::*;

verus! {

/// An absolute path of the fleet's (Unix) hosts: it starts at the root.
pub open spec fn absolute_path(p: Seq<char>) -> bool {
    p.len() > 0 && p[0] == '/'
}

pub open spec fn storage_issue(hn: Seq<char>, field: Seq<char>, value: Option<String>) -> Seq<IssueView> {
    match value {
        Some(v) => raise_if(
            !absolute_path(v@),
            err(
                "host.relative_storage_path"@,
                Some("hosts."@ + hn + ".storage."@ + field),
                Some(v@),
                "host '"@ + hn + "' storage."@ + field + " must be an absolute path"@,
            ),
        ),
        None => Seq::empty(),
    }
}

pub open spec fn supported_vendor(v: Seq<char>) -> bool {
    v == "amd"@ || v == "intel"@ || v == "nvidia"@
}

pub open spec fn host_hardware_issues(hn: Seq<char>, host: Host) -> Seq<IssueView> {
    storage_issue(hn, "dataRoot"@, host.storage.data_root) + storage_issue(
        hn,
        "projectStateRoot"@,
        host.storage.project_state_root,
    ) + storage_issue(hn, "flakeRoot"@, host.storage.flake_root) + match host.gpu.media {
        Some(media) => raise_if(
            !supported_vendor(media.vendor@),
            err(
                "host.invalid_gpu_media_vendor"@,
                Some("hosts."@ + hn + ".gpu.media.vendor"@),
                Some(media.vendor@),
                "host '"@ + hn + "' GPU media vendor '"@ + media.vendor@ + "' is unsupported"@,
            ),
        ) + raise_if(
            !starts_with(media.render_node@, "/dev/dri/"@),
            err(
                "host.invalid_gpu_media_render_node"@,
                Some("hosts."@ + hn + ".gpu.media.renderNode"@),
                Some(media.render_node@),
                "host '"@ + hn + "' GPU media renderNode must be under /dev/dri/"@,
            ),
        ) + raise_if(
            is_blank(media.libva_driver@),
            err(
                "host.empty_gpu_media_driver"@,
                Some("hosts."@ + hn + ".gpu.media.libvaDriver"@),
                Some(media.libva_driver@),
                "host '"@ + hn + "' GPU media libvaDriver must not be empty"@,
            ),
        ),
        None => Seq::empty(),
    }
}

pub open spec fn hardware_fn() -> spec_fn(int, (Seq<char>, Host)) -> Seq<IssueView> {
    |i: int, e: (Seq<char>, Host)| host_hardware_issues(e.0, e.1)
}

/// Storage roots must be absolute; GPU media needs a supported vendor, a
/// render node under `/dev/dri/` and a driver name.
pub open spec fn hardware_issues(t: Topology) -> Seq<IssueView> {
    concat_map(host_entries(t.hosts), hardware_fn())
}

fn check_storage(report: &mut ValidationReport, hn: &str, field: &str, value: &Option<String>)
    ensures
        issues_view(final(report).issues@) == issues_view(old(report).issues@) + storage_issue(
            hn@,
            field@,
            *value,
        ),
{
    if let Some(v) = value {
        let v = v.as_str();
        if !str_starts_with(v, "/") {
            proof {
                reveal_strlit("/");
                if v@.len() > 0 && v@[0] == '/' {
                    assert(v@.subrange(0, 1) =~= "/"@);
                }
            }
            report.error(
                "host.relative_storage_path",
                Some(s4("hosts.", hn, ".storage.", field)),
                Some(copy(v)),
                s5("host '", hn, "' storage.", field, " must be an absolute path"),
            );
        } else {
            proof {
                reveal_strlit("/");
                assert(v@.subrange(0, 1)[0] == v@[0]);
            }
        }
    }
    assert(issues_view(report.issues@) =~= issues_view(old(report).issues@) + storage_issue(
        hn@,
        field@,
        *value,
    ));
}

fn check_host(report: &mut ValidationReport, hn: &str, host: &Host)
    ensures
        issues_view(final(report).issues@) == issues_view(old(report).issues@)
            + host_hardware_issues(hn@, *host),
{
    let ghost start = issues_view(report.issues@);
    check_storage(report, hn, "dataRoot", &host.storage.data_root);
    check_storage(report, hn, "projectStateRoot", &host.storage.project_state_root);
    check_storage(report, hn, "flakeRoot", &host.storage.flake_root);
    let ghost mid = issues_view(report.issues@);
    if let Some(media) = &host.gpu.media {
        let vendor = media.vendor.as_str();
        if !(str_eq(vendor, "amd") || str_eq(vendor, "intel") || str_eq(vendor, "nvidia")) {
            report.error(
                "host.invalid_gpu_media_vendor",
                Some(s3("hosts.", hn, ".gpu.media.vendor")),
                Some(copy(vendor)),
                s5("host '", hn, "' GPU media vendor '", vendor, "' is unsupported"),
            );
        }
        if !str_starts_with(media.render_node.as_str(), "/dev/dri/") {
            report.error(
                "host.invalid_gpu_media_render_node",
                Some(s3("hosts.", hn, ".gpu.media.renderNode")),
                Some(copy(media.render_node.as_str())),
                s3("host '", hn, "' GPU media renderNode must be under /dev/dri/"),
            );
        }
        if is_blank_str(media.libva_driver.as_str()) {
            report.error(
                "host.empty_gpu_media_driver",
                Some(s3("hosts.", hn, ".gpu.media.libvaDriver")),
                Some(copy(media.libva_driver.as_str())),
                s3("host '", hn, "' GPU media libvaDriver must not be empty"),
            );
        }
    }
    assert(issues_view(report.issues@) =~= start + host_hardware_issues(hn@, *host));
}

/// Checks host storage paths and GPU media settings.
pub fn validate_host_hardware(topology: &Topology, report: &mut ValidationReport)
    ensures
        issues_view(final(report).issues@) == issues_view(old(report).issues@) + hardware_issues(
            *topology,
        ),
{
    let ghost start = issues_view(report.issues@);
    let ghost hosts = host_entries(topology.hosts);
    let ghost f = hardware_fn();
    let n = host_map_len(&topology.hosts);
    let mut i: usize = 0;
    while i < n
        invariant
            hosts == host_entries(topology.hosts),
            f == hardware_fn(),
            n == hosts.len(),
            0 <= i <= n,
            issues_view(report.issues@) == start + concat_map(hosts.take(i as int), f),
        decreases n - i,
    {
        match host_map_get_index(&topology.hosts, i) {
            Some((hn, host)) => {
                proof {
                    lemma_concat_map_step(hosts, f, i as int);
                }
                check_host(report, hn.as_str(), host);
            },
            None => {},
        }
        i += 1;
    }
    proof {
        lemma_concat_map_all(hosts, f);
    }
}

} // verus!
