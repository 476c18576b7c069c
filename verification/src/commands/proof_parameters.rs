//! Provisioning of the Filecoin proof parameters for genesis preparation.
//!
//! The parameters are cached in one directory, which is mounted into the
//! lotus containers. When the cache is empty they are fetched with
//! `lotus fetch-params` in the builder container, and when that fails, from a
//! pre-packaged tarball on S3. The caller runs the commands and touches the
//! file system; this module decides what is done next and what the outcome
//! of each step means.

use vstd::prelude::*;
use vstd::string::*;
use crate::text::{decimal, decimal_text};

verus! {

/// Where the proof parameters came from.
#[derive(Debug, Clone, Copy, PartialEq, Eq, Structural)]
pub enum ProofParamsSource {
    /// The cache already held them.
    AlreadyPresent,
    /// `lotus fetch-params` fetched them.
    LotusFetchParams,
    /// The S3 tarball provided them.
    S3Tarball,
}

/// What the caller reports after carrying out an action.
#[derive(Debug)]
pub enum ProofParamsEvent {
    /// The cache directory was inspected: whether it exists and has entries.
    CacheChecked { has_entries: bool },
    /// The `lotus fetch-params` attempt ended.
    LotusFetchFinished { result: Result<(), String> },
    /// The S3 tarball download and extraction ended.
    S3DownloadFinished { result: Result<(), String> },
}

/// What the caller does next.
#[derive(Debug)]
pub enum ProofParamsAction {
    /// Inspect the cache directory.
    CheckCache,
    /// Fetch the parameters with `lotus fetch-params` (with retries).
    FetchViaLotus,
    /// The lotus fetch failed with this error: fall back to the S3 tarball.
    DownloadFromS3 { lotus_error: String },
    /// Provisioning is over, with this outcome.
    Finish { result: Result<ProofParamsSource, String> },
}

/// The values of an action.
pub enum ProofParamsActionView {
    CheckCache,
    FetchViaLotus,
    DownloadFromS3 { lotus_error: Seq<char> },
    Finish { result: Result<ProofParamsSource, Seq<char>> },
}

/// The values of an event.
pub enum ProofParamsEventView {
    CacheChecked { has_entries: bool },
    LotusFetchFinished { result: Result<(), Seq<char>> },
    S3DownloadFinished { result: Result<(), Seq<char>> },
}

impl View for ProofParamsAction {
    type V = ProofParamsActionView;

    open spec fn view(&self) -> ProofParamsActionView {
        match self {
            ProofParamsAction::CheckCache => ProofParamsActionView::CheckCache,
            ProofParamsAction::FetchViaLotus => ProofParamsActionView::FetchViaLotus,
            ProofParamsAction::DownloadFromS3 { lotus_error } => ProofParamsActionView::DownloadFromS3 {
                lotus_error: lotus_error@,
            },
            ProofParamsAction::Finish { result } => ProofParamsActionView::Finish {
                result: match result {
                    Ok(s) => Ok(*s),
                    Err(e) => Err(e@),
                },
            },
        }
    }
}

impl View for ProofParamsEvent {
    type V = ProofParamsEventView;

    open spec fn view(&self) -> ProofParamsEventView {
        match self {
            ProofParamsEvent::CacheChecked { has_entries } => ProofParamsEventView::CacheChecked {
                has_entries: *has_entries,
            },
            ProofParamsEvent::LotusFetchFinished { result } => ProofParamsEventView::LotusFetchFinished {
                result: match result {
                    Ok(()) => Ok(()),
                    Err(e) => Err(e@),
                },
            },
            ProofParamsEvent::S3DownloadFinished { result } => ProofParamsEventView::S3DownloadFinished {
                result: match result {
                    Ok(()) => Ok(()),
                    Err(e) => Err(e@),
                },
            },
        }
    }
}

/// The step after an event: a cache with entries is kept; an empty cache is
/// filled by `lotus fetch-params`; a failed lotus fetch falls back to the S3
/// tarball, whose failure is the outcome.
pub open spec fn next_proof_params_action(event: ProofParamsEventView) -> ProofParamsActionView {
    match event {
        ProofParamsEventView::CacheChecked { has_entries } => if has_entries {
            ProofParamsActionView::Finish { result: Ok(ProofParamsSource::AlreadyPresent) }
        } else {
            ProofParamsActionView::FetchViaLotus
        },
        ProofParamsEventView::LotusFetchFinished { result } => match result {
            Ok(()) => ProofParamsActionView::Finish {
                result: Ok(ProofParamsSource::LotusFetchParams),
            },
            Err(e) => ProofParamsActionView::DownloadFromS3 { lotus_error: e },
        },
        ProofParamsEventView::S3DownloadFinished { result } => match result {
            Ok(()) => ProofParamsActionView::Finish { result: Ok(ProofParamsSource::S3Tarball) },
            Err(e) => ProofParamsActionView::Finish { result: Err(e) },
        },
    }
}

/// The S3 tarball is only a fallback: it is downloaded only after the
/// `lotus fetch-params` attempt failed, and anything is fetched at all only
/// after the cache was found empty.
pub proof fn lemma_downloads_only_when_needed(event: ProofParamsEventView)
    ensures
        next_proof_params_action(event) is DownloadFromS3 ==> event matches ProofParamsEventView::LotusFetchFinished { result: Err(_) },
        next_proof_params_action(event) is FetchViaLotus ==> event matches ProofParamsEventView::CacheChecked { has_entries: false },
        event matches ProofParamsEventView::CacheChecked { has_entries: true } ==> next_proof_params_action(event)
            == (ProofParamsActionView::Finish { result: Ok(ProofParamsSource::AlreadyPresent) }),
{
}

/// `event` is what the caller reports after carrying out `action`.
pub open spec fn answers(action: ProofParamsActionView, event: ProofParamsEventView) -> bool {
    match (action, event) {
        (ProofParamsActionView::CheckCache, ProofParamsEventView::CacheChecked { .. }) => true,
        (ProofParamsActionView::FetchViaLotus, ProofParamsEventView::LotusFetchFinished { .. }) => true,
        (
            ProofParamsActionView::DownloadFromS3 { .. },
            ProofParamsEventView::S3DownloadFinished { .. },
        ) => true,
        _ => false,
    }
}

/// The action that follows the first `n` events of a provisioning run.
pub open spec fn action_after(events: Seq<ProofParamsEventView>, n: int) -> ProofParamsActionView {
    if n <= 0 {
        ProofParamsActionView::CheckCache
    } else {
        next_proof_params_action(events[n - 1])
    }
}

/// A provisioning run: every event answers the action before it.
pub open spec fn is_provisioning_run(events: Seq<ProofParamsEventView>) -> bool {
    forall|i: int| 0 <= i < events.len() ==> #[trigger] answers(action_after(events, i), events[i])
}

/// A provisioning run ends after at most three steps, and it ends in success
/// only in one of three ways: the cache was found with entries (and nothing
/// was downloaded), or it was found empty and `lotus fetch-params` filled it,
/// or it was found empty, the lotus fetch failed and the S3 tarball filled it.
/// So a run that starts from a cache with entries succeeds at once, without
/// downloading anything.
pub proof fn lemma_provisioning_runs(events: Seq<ProofParamsEventView>)
    requires
        is_provisioning_run(events),
    ensures
        events.len() <= 3,
        action_after(events, events.len() as int) matches ProofParamsActionView::Finish {
            result: Ok(source),
        } ==> {
            ||| source == ProofParamsSource::AlreadyPresent && events.len() == 1 && events[0]
                == (ProofParamsEventView::CacheChecked { has_entries: true })
            ||| source == ProofParamsSource::LotusFetchParams && events.len() == 2 && events[0]
                == (ProofParamsEventView::CacheChecked { has_entries: false }) && (events[1] matches ProofParamsEventView::LotusFetchFinished { result: Ok(_) })
            ||| source == ProofParamsSource::S3Tarball && events.len() == 3 && events[0]
                == (ProofParamsEventView::CacheChecked { has_entries: false })
                && (events[1] matches ProofParamsEventView::LotusFetchFinished { result: Err(_) })
                && (events[2] matches ProofParamsEventView::S3DownloadFinished { result: Ok(_) })
        },
{
    if events.len() > 0 {
        assert(answers(action_after(events, 0), events[0]));
        if events.len() > 1 {
            assert(answers(action_after(events, 1), events[1]));
            if events.len() > 2 {
                assert(answers(action_after(events, 2), events[2]));
                if events.len() > 3 {
                    assert(answers(action_after(events, 3), events[3]));
                }
            }
        }
    }
}

/// The first step of provisioning: look at the cache.
pub fn start_proof_parameters() -> (action: ProofParamsAction)
    ensures
        action@ == ProofParamsActionView::CheckCache,
{
    ProofParamsAction::CheckCache
}

/// Ensures the Filecoin proof parameters are in the cache: decides the step
/// that follows an event.
pub fn ensure_proof_parameters(event: ProofParamsEvent) -> (action: ProofParamsAction)
    ensures
        action@ == next_proof_params_action(event@),
{
    match event {
        ProofParamsEvent::CacheChecked { has_entries } => if has_entries {
            ProofParamsAction::Finish { result: Ok(ProofParamsSource::AlreadyPresent) }
        } else {
            ProofParamsAction::FetchViaLotus
        },
        ProofParamsEvent::LotusFetchFinished { result } => match result {
            Ok(()) => ProofParamsAction::Finish { result: Ok(ProofParamsSource::LotusFetchParams) },
            Err(e) => ProofParamsAction::DownloadFromS3 { lotus_error: e },
        },
        ProofParamsEvent::S3DownloadFinished { result } => match result {
            Ok(()) => ProofParamsAction::Finish { result: Ok(ProofParamsSource::S3Tarball) },
            Err(e) => ProofParamsAction::Finish { result: Err(e) },
        },
    }
}

/// The outcome of one `lotus fetch-params` run: the command must succeed
/// and leave files in the staging directory.
pub open spec fn lotus_fetch_outcome(
    succeeded: bool,
    stderr: Seq<char>,
    staging_has_entries: bool,
) -> Result<(), Seq<char>> {
    if !succeeded {
        Err("Failed to download proof parameters: "@ + stderr)
    } else if !staging_has_entries {
        Err("lotus fetch-params produced no files"@)
    } else {
        Ok(())
    }
}

/// Judges one `lotus fetch-params` run (`staging_has_entries` is only read
/// when the command succeeded).
pub fn check_lotus_fetch(succeeded: bool, stderr: &str, staging_has_entries: bool) -> (r: Result<
    (),
    String,
>)
    ensures
        match (r, lotus_fetch_outcome(succeeded, stderr@, staging_has_entries)) {
            (Ok(()), Ok(())) => true,
            (Err(e), Err(m)) => e@ == m,
            _ => false,
        },
{
    if !succeeded {
        let mut m = String::from_str("Failed to download proof parameters: ");
        m.append(stderr);
        Err(m)
    } else if !staging_has_entries {
        Err(String::from_str("lotus fetch-params produced no files"))
    } else {
        Ok(())
    }
}

/// The outcome of the S3 fallback: the download must succeed, then the
/// extraction, and the extraction must produce files.
pub open spec fn s3_download_outcome(
    download_succeeded: bool,
    download_stderr: Seq<char>,
    extract_succeeded: bool,
    extract_stderr: Seq<char>,
    extracted_has_entries: bool,
) -> Result<(), Seq<char>> {
    if !download_succeeded {
        Err("Failed to download tarball from S3: "@ + download_stderr)
    } else if !extract_succeeded {
        Err("Failed to extract tarball: "@ + extract_stderr)
    } else if !extracted_has_entries {
        Err("Tarball extraction produced no files"@)
    } else {
        Ok(())
    }
}

/// Judges the S3 fallback (later inputs are only read when the earlier steps
/// succeeded).
pub fn check_s3_download(
    download_succeeded: bool,
    download_stderr: &str,
    extract_succeeded: bool,
    extract_stderr: &str,
    extracted_has_entries: bool,
) -> (r: Result<(), String>)
    ensures
        match (
            r,
            s3_download_outcome(
                download_succeeded,
                download_stderr@,
                extract_succeeded,
                extract_stderr@,
                extracted_has_entries,
            ),
        ) {
            (Ok(()), Ok(())) => true,
            (Err(e), Err(m)) => e@ == m,
            _ => false,
        },
{
    if !download_succeeded {
        let mut m = String::from_str("Failed to download tarball from S3: ");
        m.append(download_stderr);
        Err(m)
    } else if !extract_succeeded {
        let mut m = String::from_str("Failed to extract tarball: ");
        m.append(extract_stderr);
        Err(m)
    } else if !extracted_has_entries {
        Err(String::from_str("Tarball extraction produced no files"))
    } else {
        Ok(())
    }
}

/// The arguments of the `curl` command that downloads the tarball to
/// `tarball_path`.
pub fn s3_download_args(tarball_path: &str) -> (args: Vec<String>)
    ensures
        args@.len() == 4,
        args@[0]@ == "-L"@,
        args@[1]@ == "https://fil-proof-params-2k-cache.s3.us-east-2.amazonaws.com/filecoin-proof-params-2k.tar"@,
        args@[2]@ == "-o"@,
        args@[3]@ == tarball_path@,
{
    let mut args: Vec<String> = Vec::new();
    args.push(String::from_str("-L"));
    args.push(
        String::from_str(
            "https://fil-proof-params-2k-cache.s3.us-east-2.amazonaws.com/filecoin-proof-params-2k.tar",
        ),
    );
    args.push(String::from_str("-o"));
    args.push(String::from_str(tarball_path));
    args
}

/// The arguments of the `tar` command that extracts the tarball into
/// `extract_dir`.
pub fn tar_extract_args(tarball_path: &str, extract_dir: &str) -> (args: Vec<String>)
    ensures
        args@.len() == 4,
        args@[0]@ == "-xf"@,
        args@[1]@ == tarball_path@,
        args@[2]@ == "-C"@,
        args@[3]@ == extract_dir@,
{
    let mut args: Vec<String> = Vec::new();
    args.push(String::from_str("-xf"));
    args.push(String::from_str(tarball_path));
    args.push(String::from_str("-C"));
    args.push(String::from_str(extract_dir));
    args
}

/// The name of the builder container that runs `lotus fetch-params`:
/// `foc-proof-params-fetch-<seconds since the Unix epoch>`.
pub fn lotus_fetch_container_name(unix_seconds: u64) -> (r: String)
    ensures
        r@ == "foc-proof-params-fetch-"@ + decimal_text(unix_seconds as nat),
{
    let mut r = String::from_str("foc-proof-params-fetch-");
    let digits = decimal(unix_seconds);
    r.append(digits.as_str());
    r
}

/// The leading arguments of the `docker run` command that fetches the
/// parameters: the container's name and the cache location it is given.
pub fn lotus_fetch_run_args(container_name: &str, container_params_path: &str) -> (args: Vec<
    String,
>)
    ensures
        args@.len() == 5,
        args@[0]@ == "run"@,
        args@[1]@ == "--name"@,
        args@[2]@ == container_name@,
        args@[3]@ == "-e"@,
        args@[4]@ == "FIL_PROOFS_PARAMETER_CACHE="@ + container_params_path@,
{
    let mut args: Vec<String> = Vec::new();
    args.push(String::from_str("run"));
    args.push(String::from_str("--name"));
    args.push(String::from_str(container_name));
    args.push(String::from_str("-e"));
    let mut cache = String::from_str("FIL_PROOFS_PARAMETER_CACHE=");
    cache.append(container_params_path);
    args.push(cache);
    args
}

/// The trailing arguments of that `docker run` command: the image, and the
/// shell command that runs the mounted lotus binary's `fetch-params`.
pub fn lotus_fetch_command_args(image: &str, sector_size: &str) -> (args: Vec<String>)
    ensures
        args@.len() == 4,
        args@[0]@ == image@,
        args@[1]@ == "/bin/bash"@,
        args@[2]@ == "-c"@,
        args@[3]@ == "/output/lotus fetch-params "@ + sector_size@,
{
    let mut args: Vec<String> = Vec::new();
    args.push(String::from_str(image));
    args.push(String::from_str("/bin/bash"));
    args.push(String::from_str("-c"));
    let mut command = String::from_str("/output/lotus fetch-params ");
    command.append(sector_size);
    args.push(command);
    args
}

/// What staging proof parameters from a local directory does.
#[derive(Debug)]
pub enum LocalParamsStep {
    /// The directory does not exist: fail with this message.
    Missing { message: String },
    /// The directory is the global cache itself: nothing to copy.
    AlreadyInCache,
    /// Copy the directory into the global cache.
    Copy,
}

/// Decides what staging proof parameters from `params_path` does: a missing
/// directory is an error, the cache itself is left alone, anything else is
/// copied (`same_as_cache` is only read when the directory exists).
pub fn local_params_step(params_path: &str, exists: bool, same_as_cache: bool) -> (step:
    LocalParamsStep)
    ensures
        !exists ==> (step matches LocalParamsStep::Missing { message } && message@
            == "Local proof parameters not found: "@ + params_path@),
        exists && same_as_cache ==> step matches LocalParamsStep::AlreadyInCache,
        exists && !same_as_cache ==> step matches LocalParamsStep::Copy,
{
    if !exists {
        let mut message = String::from_str("Local proof parameters not found: ");
        message.append(params_path);
        LocalParamsStep::Missing { message }
    } else if same_as_cache {
        LocalParamsStep::AlreadyInCache
    } else {
        LocalParamsStep::Copy
    }
}

/// What merging a source directory into the cache does with one entry.
#[derive(Debug, Clone, Copy, PartialEq, Eq, Structural)]
pub enum MergeStep {
    /// A directory: merge its contents into the directory of the same name.
    Descend,
    /// A file that the cache already has: keep the cached file.
    KeepExisting,
    /// A new file: move it into the cache (copy and remove if a rename fails).
    MoveIn,
}

/// Decides what merging does with an entry: directories are merged,
/// existing files in the destination are never replaced, other files move in.
pub fn merge_step(source_is_dir: bool, destination_exists: bool) -> (step: MergeStep)
    ensures
        step == merge_step_of(source_is_dir, destination_exists),
        source_is_dir ==> step == MergeStep::Descend,
        !source_is_dir && destination_exists ==> step == MergeStep::KeepExisting,
        !source_is_dir && !destination_exists ==> step == MergeStep::MoveIn,
{
    if source_is_dir {
        MergeStep::Descend
    } else if destination_exists {
        MergeStep::KeepExisting
    } else {
        MergeStep::MoveIn
    }
}

/// The step that `merge_step` takes for an entry.
pub open spec fn merge_step_of(source_is_dir: bool, destination_exists: bool) -> MergeStep {
    if source_is_dir {
        MergeStep::Descend
    } else if destination_exists {
        MergeStep::KeepExisting
    } else {
        MergeStep::MoveIn
    }
}

/// An entry of a directory tree.
pub enum FsNode {
    /// A regular file with its contents.
    File { contents: Seq<u8> },
    /// A directory.
    Directory,
}

/// A directory tree: its entries by their path relative to the tree's root,
/// one name per path component.
pub type FsTree = Map<Seq<Seq<char>>, FsNode>;

/// The tree has an entry directly under its root (what "the directory has
/// entries" means).
pub open spec fn tree_has_entries(tree: FsTree) -> bool {
    exists|p: Seq<Seq<char>>| p.len() == 1 && #[trigger] tree.contains_key(p)
}

/// The step that merging `source` into `destination` takes for the source
/// entry at `p`, as `merge_step` decides it: whether the source entry is a
/// directory, and whether anything exists at `p` in the destination.
pub open spec fn entry_step(source: FsTree, destination: FsTree, p: Seq<Seq<char>>) -> MergeStep {
    merge_step_of(source[p] is Directory, destination.contains_key(p))
}

/// The merge can run to its end without an error from the file system: no
/// source directory meets a file of the same path in the destination (there
/// the destination directory could not be created).
pub open spec fn merge_applies(source: FsTree, destination: FsTree) -> bool {
    forall|p: Seq<Seq<char>>|
        #![trigger source.contains_key(p), destination.contains_key(p)]
        source.contains_key(p) && source[p] is Directory && destination.contains_key(p)
            ==> destination[p] is Directory
}

/// The destination after merging `source` into it, every source entry taking
/// the step that `merge_step` gives it: a directory is created where none
/// exists, an existing entry is kept, a new file moves in. Each destination
/// path is touched only by the step of the source entry of the same path, so
/// the order in which entries are visited does not matter.
pub open spec fn merged_destination(source: FsTree, destination: FsTree) -> FsTree {
    Map::new(
        |p: Seq<Seq<char>>| source.contains_key(p) || destination.contains_key(p),
        |p: Seq<Seq<char>>|
            if source.contains_key(p) {
                match entry_step(source, destination, p) {
                    MergeStep::Descend => if destination.contains_key(p) {
                        destination[p]
                    } else {
                        FsNode::Directory
                    },
                    MergeStep::KeepExisting => destination[p],
                    MergeStep::MoveIn => source[p],
                }
            } else {
                destination[p]
            },
    )
}

/// The source after the merge: the files that moved in are gone from it,
/// everything else stays as it was.
pub open spec fn merged_source(source: FsTree, destination: FsTree) -> FsTree {
    Map::new(
        |p: Seq<Seq<char>>| source.contains_key(p) && entry_step(source, destination, p) != MergeStep::MoveIn,
        |p: Seq<Seq<char>>| source[p],
    )
}

/// Merging keeps what the destination had and brings in what was new: every
/// destination entry is unchanged (an existing file is never replaced); every
/// source path exists in the destination afterwards, and nothing else is
/// added; a source file whose path was free in the destination is there with
/// the same contents and is gone from the source; a source file whose path
/// was taken stays in the source unchanged; source directories stay, and are
/// directories in the destination.
pub proof fn lemma_merge_keeps_and_moves(source: FsTree, destination: FsTree)
    requires
        merge_applies(source, destination),
    ensures
        forall|p: Seq<Seq<char>>| #[trigger] merged_destination(source, destination).contains_key(p)
            <==> (source.contains_key(p) || destination.contains_key(p)),
        forall|p: Seq<Seq<char>>| destination.contains_key(p)
            ==> #[trigger] merged_destination(source, destination)[p] == destination[p],
        forall|p: Seq<Seq<char>>|
            #![trigger source.contains_key(p), destination.contains_key(p)]
            source.contains_key(p) && source[p] is File && !destination.contains_key(p) ==> {
                &&& merged_destination(source, destination)[p] == source[p]
                &&& !merged_source(source, destination).contains_key(p)
            },
        forall|p: Seq<Seq<char>>|
            #![trigger source.contains_key(p), destination.contains_key(p)]
            source.contains_key(p) && source[p] is File && destination.contains_key(p) ==> {
                &&& merged_source(source, destination).contains_key(p)
                &&& merged_source(source, destination)[p] == source[p]
            },
        forall|p: Seq<Seq<char>>| source.contains_key(p) && source[p] is Directory ==> {
            &&& #[trigger] merged_source(source, destination).contains_key(p)
            &&& merged_source(source, destination)[p] == source[p]
            &&& merged_destination(source, destination)[p] is Directory
        },
        forall|p: Seq<Seq<char>>| #[trigger] merged_source(source, destination).contains_key(p)
            ==> source.contains_key(p) && merged_source(source, destination)[p] == source[p],
{
    let md = merged_destination(source, destination);
    let ms = merged_source(source, destination);
    assert forall|p: Seq<Seq<char>>| destination.contains_key(p) implies #[trigger] md[p]
        == destination[p] by {
        if source.contains_key(p) && source[p] is Directory {
            assert(destination[p] is Directory);
        }
    }
}

/// What a merge makes of an empty-or-not cache: if the source has entries,
/// so does the destination afterwards, and a destination that had entries
/// keeps them.
pub proof fn lemma_merge_fills(source: FsTree, destination: FsTree)
    requires
        merge_applies(source, destination),
        tree_has_entries(source) || tree_has_entries(destination),
    ensures
        tree_has_entries(merged_destination(source, destination)),
{
    let md = merged_destination(source, destination);
    if tree_has_entries(source) {
        let p = choose|p: Seq<Seq<char>>| p.len() == 1 && #[trigger] source.contains_key(p);
        assert(md.contains_key(p));
    } else {
        let p = choose|p: Seq<Seq<char>>| p.len() == 1 && #[trigger] destination.contains_key(p);
        assert(md.contains_key(p));
    }
}

/// A `lotus fetch-params` run that is judged a success has left entries in
/// its staging tree; merged into the cache, they leave the cache with
/// entries, so the next provisioning run finds the cache filled and finishes
/// at once without downloading.
pub proof fn lemma_lotus_fetch_fills_cache(
    succeeded: bool,
    stderr: Seq<char>,
    staging: FsTree,
    cache: FsTree,
)
    requires
        lotus_fetch_outcome(succeeded, stderr, tree_has_entries(staging)) is Ok,
        merge_applies(staging, cache),
    ensures
        tree_has_entries(merged_destination(staging, cache)),
        next_proof_params_action(
            ProofParamsEventView::CacheChecked {
                has_entries: tree_has_entries(merged_destination(staging, cache)),
            },
        ) == (ProofParamsActionView::Finish { result: Ok(ProofParamsSource::AlreadyPresent) }),
{
    lemma_merge_fills(staging, cache);
}

/// An S3 fallback that is judged a success has extracted entries; merged
/// into the cache, they leave the cache with entries, so the next
/// provisioning run finds the cache filled and finishes at once without
/// downloading.
pub proof fn lemma_s3_download_fills_cache(
    download_succeeded: bool,
    download_stderr: Seq<char>,
    extract_succeeded: bool,
    extract_stderr: Seq<char>,
    extracted: FsTree,
    cache: FsTree,
)
    requires
        s3_download_outcome(
            download_succeeded,
            download_stderr,
            extract_succeeded,
            extract_stderr,
            tree_has_entries(extracted),
        ) is Ok,
        merge_applies(extracted, cache),
    ensures
        tree_has_entries(merged_destination(extracted, cache)),
        next_proof_params_action(
            ProofParamsEventView::CacheChecked {
                has_entries: tree_has_entries(merged_destination(extracted, cache)),
            },
        ) == (ProofParamsActionView::Finish { result: Ok(ProofParamsSource::AlreadyPresent) }),
{
    lemma_merge_fills(extracted, cache);
}

/// The parent of a path, as `std::path::Path::parent` gives it (`None` for a
/// root, a prefix or the empty path).
pub uninterp spec fn path_parent(path: Seq<char>) -> Option<Seq<char>>;

/// Calls `std::path::Path::parent` on the path. The result depends on the
/// path alone (under the path syntax of the platform the program is built
/// for); it is named `path_parent` of the path and nothing more is claimed of
/// it.
#[verifier::external_body]
fn parent_of(path: &str) -> (r: Option<String>)
    ensures
        r matches Some(p) ==> path_parent(path@) == Some(p@),
        r is None ==> path_parent(path@) is None,
{
    match std::path::Path::new(path).parent() {
        Some(p) => Some(p.to_string_lossy().into_owned()),
        None => None,
    }
}

/// The directory that holds the staging directories of a download, given
/// the parent of the cache directory: that parent, or `/var/tmp` when the
/// cache directory has none.
pub fn staging_parent_from(parent: Option<String>) -> (r: String)
    ensures
        r@ == match parent {
            Some(p) => p@,
            None => "/var/tmp"@,
        },
{
    match parent {
        Some(p) => p,
        None => String::from_str("/var/tmp"),
    }
}

/// The directory that holds the staging directories of a download: the
/// parent of the cache directory, or `/var/tmp` when it has none.
pub fn proof_params_staging_parent(params_dir: &str) -> (r: String)
    ensures
        r@ == match path_parent(params_dir@) {
            Some(p) => p,
            None => "/var/tmp"@,
        },
{
    staging_parent_from(parent_of(params_dir))
}

} // verus!
