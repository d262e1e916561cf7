use eh_archiver::api::{ActiveTasksResponse, DownloadType};
use eh_archiver::manager::{
    advance, archive_path, detail_json_path, has_archive_extension, metadata_json_path,
    DownloadManager, JobEvent, JobStage, SubmitError,
};

#[test]
fn duplicate_key_is_rejected_until_terminal() {
    let mut m = DownloadManager::new(false, "out".to_string(), 2);
    let key = m.submit("https://e-hentai.org/g/1/aa/").unwrap();
    assert_eq!(key, "https://e-hentai.org/g/1/aa/".to_string());
    // The same gallery under the variant host normalizes to the same key
    // and is rejected while the first job is in flight.
    let second = m.submit("https://exhentai.org/g/1/aa/");
    assert_eq!(second, Err(SubmitError::AlreadyInProgress));
    // Once the prior job reaches a terminal state, the key is free again.
    m.finish(&key);
    assert!(m.submit("https://e-hentai.org/g/1/aa/").is_ok());
}

#[test]
fn normalization_follows_site_variant() {
    let m = DownloadManager::new(true, "out".to_string(), 1);
    assert_eq!(
        m.normalize_url("https://e-hentai.org/g/1/aa/"),
        "https://exhentai.org/g/1/aa/".to_string()
    );
    let m = DownloadManager::new(false, "out".to_string(), 1);
    assert_eq!(
        m.normalize_url("https://exhentai.org/g/1/aa/"),
        "https://e-hentai.org/g/1/aa/".to_string()
    );
}

#[test]
fn no_more_slots_than_the_limit() {
    let mut m = DownloadManager::new(false, "out".to_string(), 2);
    assert!(m.try_acquire_slot());
    assert!(m.try_acquire_slot());
    // The cap is reached: a third job cannot hold a slot.
    assert!(!m.try_acquire_slot());
    m.release_slot();
    assert!(m.try_acquire_slot());
}

#[test]
fn tasks_snapshot_counts_inflight_keys() {
    let mut m = DownloadManager::new(false, "out".to_string(), 2);
    m.submit("https://e-hentai.org/g/1/aa/").unwrap();
    m.submit("https://e-hentai.org/g/2/bb/").unwrap();
    let tasks = m.get_active_tasks();
    let resp = ActiveTasksResponse::from_tasks(tasks);
    assert_eq!(resp.count, 2);
    assert!(resp.tasks.contains(&"https://e-hentai.org/g/1/aa/".to_string()));
}

#[test]
fn existing_archive_skips_the_download() {
    // The pipeline branches at the archive check: an archive already on
    // disk goes straight to the sidecar stage.
    assert_eq!(advance(JobStage::CheckArchive, JobEvent::ArchiveExists), JobStage::WriteSidecar);
    // From there no event sequence passes the fetch or write stages; the
    // remaining run of a re-submitted job touches neither.
    let mut s = JobStage::WriteSidecar;
    for e in [JobEvent::Succeeded, JobEvent::CoverFound, JobEvent::Succeeded] {
        s = advance(s, e);
        assert_ne!(s, JobStage::FetchArchive);
        assert_ne!(s, JobStage::WriteArchive);
    }
    assert_eq!(s, JobStage::Done);
}

#[test]
fn pipeline_happy_path_in_order() {
    let mut s = JobStage::FetchGallery;
    s = advance(s, JobEvent::Succeeded);
    assert_eq!(s, JobStage::CheckArchive);
    s = advance(s, JobEvent::ArchiveMissing);
    assert_eq!(s, JobStage::FetchArchive);
    s = advance(s, JobEvent::Succeeded);
    assert_eq!(s, JobStage::WriteArchive);
    s = advance(s, JobEvent::Succeeded);
    assert_eq!(s, JobStage::WriteSidecar);
    s = advance(s, JobEvent::Succeeded);
    assert_eq!(s, JobStage::ExtractCover);
    // A missing cover is not an error: the pipeline continues.
    s = advance(s, JobEvent::CoverMissing);
    assert_eq!(s, JobStage::AddToCatalog);
    s = advance(s, JobEvent::Succeeded);
    assert_eq!(s, JobStage::Done);
}

#[test]
fn any_stage_error_is_terminal() {
    assert_eq!(advance(JobStage::FetchGallery, JobEvent::Failed), JobStage::Failed);
    assert_eq!(advance(JobStage::FetchArchive, JobEvent::Failed), JobStage::Failed);
    assert_eq!(advance(JobStage::WriteSidecar, JobEvent::Failed), JobStage::Failed);
    assert_eq!(advance(JobStage::ExtractCover, JobEvent::Failed), JobStage::Failed);
    assert_eq!(advance(JobStage::AddToCatalog, JobEvent::Failed), JobStage::Failed);
    assert_eq!(advance(JobStage::Failed, JobEvent::Succeeded), JobStage::Failed);
}

#[test]
fn gallery_file_layout() {
    let m = DownloadManager::new(false, "/data/archives".to_string(), 1);
    let dir = m.gallery_dir("123_abcdef01");
    assert_eq!(dir, "/data/archives/123_abcdef01".to_string());
    assert_eq!(
        archive_path(&dir, "123_abcdef01"),
        "/data/archives/123_abcdef01/123_abcdef01.cbz".to_string()
    );
    assert_eq!(
        detail_json_path(&dir),
        "/data/archives/123_abcdef01/gallery_detail.json".to_string()
    );
    assert_eq!(
        metadata_json_path(&dir),
        "/data/archives/123_abcdef01/gallery_metadata.json".to_string()
    );
}

#[test]
fn import_accepts_only_archive_extensions() {
    assert!(has_archive_extension("dir/file.cbz"));
    assert!(has_archive_extension("file.zip"));
    assert!(!has_archive_extension("file.ZIP"));
    assert!(!has_archive_extension("file.rar"));
    assert!(!has_archive_extension("archive"));
    assert!(!has_archive_extension("dir/.zip"));
}

#[test]
fn download_type_names() {
    assert_eq!(DownloadType::Original.name(), "Original");
    assert_eq!(DownloadType::Resample.name(), "Resample");
    assert!(DownloadType::Original.is_original());
    assert!(!DownloadType::Resample.is_original());
}

#[test]
fn submit_error_message() {
    assert_eq!(
        SubmitError::AlreadyInProgress.message(),
        "download job is already in progress"
    );
}
