use foc_devnet::commands::proof_parameters::staging_parent_from;
use foc_devnet::commands::proof_parameters::{
    check_lotus_fetch, local_params_step, lotus_fetch_command_args, lotus_fetch_container_name,
    lotus_fetch_run_args, LocalParamsStep, check_s3_download, ensure_proof_parameters, merge_step,
    proof_params_staging_parent, s3_download_args, start_proof_parameters, tar_extract_args,
    MergeStep, ProofParamsAction, ProofParamsEvent, ProofParamsSource,
};

#[test]
fn provisioning_steps() {
    assert!(matches!(start_proof_parameters(), ProofParamsAction::CheckCache));
    assert!(matches!(
        ensure_proof_parameters(ProofParamsEvent::CacheChecked { has_entries: true }),
        ProofParamsAction::Finish { result: Ok(ProofParamsSource::AlreadyPresent) }
    ));
    assert!(matches!(
        ensure_proof_parameters(ProofParamsEvent::CacheChecked { has_entries: false }),
        ProofParamsAction::FetchViaLotus
    ));
    assert!(matches!(
        ensure_proof_parameters(ProofParamsEvent::LotusFetchFinished { result: Ok(()) }),
        ProofParamsAction::Finish { result: Ok(ProofParamsSource::LotusFetchParams) }
    ));
    match ensure_proof_parameters(ProofParamsEvent::LotusFetchFinished { result: Err("net".to_string()) }) {
        ProofParamsAction::DownloadFromS3 { lotus_error } => assert_eq!(lotus_error, "net"),
        other => panic!("unexpected action: {:?}", other),
    }
    assert!(matches!(
        ensure_proof_parameters(ProofParamsEvent::S3DownloadFinished { result: Ok(()) }),
        ProofParamsAction::Finish { result: Ok(ProofParamsSource::S3Tarball) }
    ));
    match ensure_proof_parameters(ProofParamsEvent::S3DownloadFinished { result: Err("s3".to_string()) }) {
        ProofParamsAction::Finish { result: Err(e) } => assert_eq!(e, "s3"),
        other => panic!("unexpected action: {:?}", other),
    }
}

#[test]
fn lotus_fetch_outcomes() {
    assert_eq!(
        check_lotus_fetch(false, "denied", true),
        Err("Failed to download proof parameters: denied".to_string())
    );
    assert_eq!(check_lotus_fetch(true, "", false), Err("lotus fetch-params produced no files".to_string()));
    assert_eq!(check_lotus_fetch(true, "", true), Ok(()));
}

#[test]
fn s3_outcomes() {
    assert_eq!(
        check_s3_download(false, "404", true, "", true),
        Err("Failed to download tarball from S3: 404".to_string())
    );
    assert_eq!(
        check_s3_download(true, "", false, "bad tar", true),
        Err("Failed to extract tarball: bad tar".to_string())
    );
    assert_eq!(
        check_s3_download(true, "", true, "", false),
        Err("Tarball extraction produced no files".to_string())
    );
    assert_eq!(check_s3_download(true, "", true, "", true), Ok(()));
}

#[test]
fn command_arguments() {
    assert_eq!(
        s3_download_args("/tmp/s/p.tar"),
        vec![
            "-L",
            "https://fil-proof-params-2k-cache.s3.us-east-2.amazonaws.com/filecoin-proof-params-2k.tar",
            "-o",
            "/tmp/s/p.tar"
        ]
    );
    assert_eq!(tar_extract_args("/t/p.tar", "/t/x"), vec!["-xf", "/t/p.tar", "-C", "/t/x"]);
}

#[test]
fn merge_never_replaces_existing_files() {
    assert_eq!(merge_step(true, true), MergeStep::Descend);
    assert_eq!(merge_step(true, false), MergeStep::Descend);
    assert_eq!(merge_step(false, true), MergeStep::KeepExisting);
    assert_eq!(merge_step(false, false), MergeStep::MoveIn);
}

#[test]
fn staging_parent_is_parent_of_cache() {
    assert_eq!(
        proof_params_staging_parent("/var/tmp/x/filecoin-proof-parameters"),
        "/var/tmp/x"
    );
    assert_eq!(proof_params_staging_parent("/"), "/var/tmp");
    assert_eq!(proof_params_staging_parent(""), "/var/tmp");
}

#[test]
fn proof_params_staging_dir_uses_params_parent() {
    let root = tempfile::tempdir().unwrap();
    let params_dir = root.path().join("filecoin-proof-parameters");

    let parent = proof_params_staging_parent(&params_dir.to_string_lossy());
    let staging_dir = tempfile::Builder::new()
        .prefix("test-proof-params-")
        .tempdir_in(&parent)
        .unwrap();

    assert_eq!(staging_dir.path().parent().unwrap(), root.path());
}

#[test]
fn staging_parent_defaults_to_var_tmp() {
    assert_eq!(staging_parent_from(Some("/cache".to_string())), "/cache");
    assert_eq!(staging_parent_from(None), "/var/tmp");
}

#[test]
fn lotus_fetch_command_line() {
    assert_eq!(lotus_fetch_container_name(1700000000), "foc-proof-params-fetch-1700000000");
    assert_eq!(
        lotus_fetch_run_args("foc-proof-params-fetch-1", "/var/tmp/filecoin-proof-parameters"),
        vec![
            "run",
            "--name",
            "foc-proof-params-fetch-1",
            "-e",
            "FIL_PROOFS_PARAMETER_CACHE=/var/tmp/filecoin-proof-parameters"
        ]
    );
    assert_eq!(
        lotus_fetch_command_args("builder", "2KiB"),
        vec!["builder", "/bin/bash", "-c", "/output/lotus fetch-params 2KiB"]
    );
}

#[test]
fn local_parameters_steps() {
    match local_params_step("/nowhere", false, false) {
        LocalParamsStep::Missing { message } => {
            assert_eq!(message, "Local proof parameters not found: /nowhere")
        }
        other => panic!("unexpected step: {:?}", other),
    }
    assert!(matches!(local_params_step("/p", true, true), LocalParamsStep::AlreadyInCache));
    assert!(matches!(local_params_step("/p", true, false), LocalParamsStep::Copy));
}
