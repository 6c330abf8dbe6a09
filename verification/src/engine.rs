//! The pipeline behind one call: key universe, source usage, classification,
//! and the optional audit of the Dead bucket.
//!
//! Reading the configuration, walking the roots, parsing the catalogs and
//! reading the source files are the caller's; what they produced comes in
//! here as plain values, and the whole analysis is composed from the verified
//! parts: `po` (key universe) → `scan` (usage) → `liveness` (classification),
//! then `audit` over the dead keys when asked for.

use vstd::prelude::*;

use crate::audit::{audit, spec_audit, spec_audit_fails, AuditError, AuditReport};
use crate::config::{calls_view, resolve_whitelist, spec_whitelist, Config};
use crate::extract::SourceLang;
use crate::liveness::{classify, spec_status, verdicts_view, LivenessReport, Status, Usage, UsageView};
use crate::po::{
    catalogs_view, keys_view, load_index, spec_build_index, spec_no_catalogs, KeyView, PoError, PoKey,
    PoMessage,
};
use crate::scan::{aggregate, files_view, spec_file_results, spec_fold_results};
use crate::text::strings_view;

verus! {

/// The outcome of a full run: the configuration it used, the per-key
/// verdicts, and — when requested — the audit of the Dead bucket.
#[derive(Debug)]
pub struct Outcome {
    pub config: Config,
    pub report: crate::liveness::LivenessReport,
    pub audit: Option<AuditReport>,
}

/// Why an analysis could not complete.
#[derive(Debug)]
pub enum RunError {
    /// The key universe could not be loaded.
    Po(PoError),
    /// The audit could not run.
    Audit(AuditError),
}

/// The verdict for each key of the universe.
pub open spec fn spec_verdicts(keys: Seq<KeyView>, whitelist: Seq<Seq<char>>, u: UsageView) -> Seq<
    (KeyView, Status),
> {
    keys.map_values(|k: KeyView| (k, spec_status(k, whitelist, u.0, u.1, u.3)))
}

/// The dead keys, in verdict order.
pub open spec fn spec_dead_keys(v: Seq<(KeyView, Status)>) -> Seq<KeyView> {
    crate::liveness::spec_with_status(v, Status::Dead).map_values(|x: (KeyView, Status)| x.0)
}

/// The dead keys of a report, in verdict order.
fn dead_keys(report: &LivenessReport) -> (r: Vec<PoKey>)
    ensures
        keys_view(r@) == spec_dead_keys(verdicts_view(report.verdicts@)),
{
    let dead = report.dead();
    let ghost dv = verdicts_view(dead@);
    let mut out: Vec<PoKey> = Vec::new();
    let mut i: usize = 0;
    while i < dead.len()
        invariant
            dv == verdicts_view(dead@),
            i <= dead.len(),
            keys_view(out@) == dv.take(i as int).map_values(|x: (KeyView, Status)| x.0),
        decreases dead.len() - i,
    {
        let ghost before = keys_view(out@);
        out.push(dead[i].key.copy());
        assert(dv[i as int] == dead@[i as int]@);
        assert(keys_view(out@) =~= before.push(dead@[i as int].key@));
        assert(dv.take(i + 1).map_values(|x: (KeyView, Status)| x.0) =~= dv.take(i as int).map_values(
            |x: (KeyView, Status)| x.0,
        ).push(dv[i as int].0));
        i = i + 1;
    }
    assert(dv.take(dead.len() as int) =~= dv);
    out
}

/// Classify the key universe of the parsed catalogs against an aggregated
/// usage, and audit the Dead bucket when the texts to search are given: the
/// part of a run after the sources were scanned. `patterns` and `roots` only
/// label the error when no catalog was found. The audit fails exactly when
/// the dead keys give patterns to search for and no automaton builds over them.
pub fn analyze_usage(
    config: &Config,
    catalogs: &Vec<Vec<PoMessage>>,
    usage: &Usage,
    whitelist_file: Option<&str>,
    audit_texts: Option<&[String]>,
    roots: &Vec<String>,
) -> (r: Result<(LivenessReport, Option<AuditReport>), RunError>)
    ensures
        r matches Err(RunError::Po(_)) <==> catalogs@.len() == 0,
        r matches Err(RunError::Po(e)) ==> spec_no_catalogs(
            e,
            strings_view(config.scan.po_patterns@),
            strings_view(roots@),
        ),
        r matches Err(RunError::Audit(_)) <==> {
            let wl = spec_whitelist(
                strings_view(config.whitelist.keys@),
                match whitelist_file {
                    Some(t) => Some(t@),
                    None => None,
                },
            );
            let v = spec_verdicts(spec_build_index(catalogs_view(catalogs@)), wl, usage@);
            &&& catalogs@.len() > 0
            &&& audit_texts is Some
            &&& spec_audit_fails(spec_dead_keys(v), config.guard.min_len as nat)
        },
        r matches Ok((report, a)) ==> {
            let wl = spec_whitelist(
                strings_view(config.whitelist.keys@),
                match whitelist_file {
                    Some(t) => Some(t@),
                    None => None,
                },
            );
            let v = spec_verdicts(spec_build_index(catalogs_view(catalogs@)), wl, usage@);
            &&& verdicts_view(report.verdicts@) == v
            &&& crate::liveness::blind_view(report.blind@) == usage@.2
            &&& (a is Some <==> audit_texts is Some)
            &&& (a matches Some(rep) ==> rep@ == spec_audit(
                spec_dead_keys(v),
                strings_view(audit_texts.unwrap()@),
                config.guard.min_len as nat,
            ))
        },
{
    let index = match load_index(catalogs, &config.scan.po_patterns, roots) {
        Ok(i) => i,
        Err(e) => return Err(RunError::Po(e)),
    };
    let whitelist = resolve_whitelist(&config.whitelist, whitelist_file);
    let report = classify(&index, usage, &whitelist);
    let ghost wl = strings_view(whitelist@);
    let ghost v = spec_verdicts(index@, wl, usage@);
    assert(verdicts_view(report.verdicts@) =~= v);
    let audited = match audit_texts {
        None => None,
        Some(texts) => {
            let dead = dead_keys(&report);
            match audit(dead.as_slice(), texts, config.guard.min_len) {
                Ok(a) => Some(a),
                Err(e) => return Err(RunError::Audit(e)),
            }
        },
    };
    Ok((report, audited))
}

/// Run the analysis over what the caller read: the parsed catalogs, each
/// source file with its language and text, the whitelist file's text (when
/// the configuration names one), and — to audit the Dead bucket — the text of
/// every source file that could be read. `patterns` and `roots` only label
/// the error when no catalog was found.
pub fn analyze(
    config: &Config,
    catalogs: &Vec<Vec<PoMessage>>,
    sources: &[(SourceLang, String)],
    whitelist_file: Option<&str>,
    audit_texts: Option<&[String]>,
    roots: &Vec<String>,
) -> (r: Result<(LivenessReport, Option<AuditReport>), RunError>)
    ensures
        r matches Err(RunError::Po(_)) <==> catalogs@.len() == 0,
        r matches Err(RunError::Po(e)) ==> spec_no_catalogs(
            e,
            strings_view(config.scan.po_patterns@),
            strings_view(roots@),
        ),
        r matches Err(RunError::Audit(_)) <==> {
            let wl = spec_whitelist(
                strings_view(config.whitelist.keys@),
                match whitelist_file {
                    Some(t) => Some(t@),
                    None => None,
                },
            );
            let usage = spec_fold_results(
                spec_file_results(
                    files_view(sources@),
                    calls_view(config.calls@),
                    config.guard.min_len as nat,
                ),
            );
            let v = spec_verdicts(spec_build_index(catalogs_view(catalogs@)), wl, usage);
            &&& catalogs@.len() > 0
            &&& audit_texts is Some
            &&& spec_audit_fails(spec_dead_keys(v), config.guard.min_len as nat)
        },
        r matches Ok((report, a)) ==> {
            let wl = spec_whitelist(
                strings_view(config.whitelist.keys@),
                match whitelist_file {
                    Some(t) => Some(t@),
                    None => None,
                },
            );
            let usage = spec_fold_results(
                spec_file_results(
                    files_view(sources@),
                    calls_view(config.calls@),
                    config.guard.min_len as nat,
                ),
            );
            let v = spec_verdicts(spec_build_index(catalogs_view(catalogs@)), wl, usage);
            &&& verdicts_view(report.verdicts@) == v
            &&& crate::liveness::blind_view(report.blind@) == usage.2
            &&& (a is Some <==> audit_texts is Some)
            &&& (a matches Some(rep) ==> rep@ == spec_audit(
                spec_dead_keys(v),
                strings_view(audit_texts.unwrap()@),
                config.guard.min_len as nat,
            ))
        },
{
    let usage = aggregate(sources, config.calls.as_slice(), config.guard.min_len);
    analyze_usage(config, catalogs, &usage, whitelist_file, audit_texts, roots)
}

} // verus!
