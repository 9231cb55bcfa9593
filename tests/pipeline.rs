use fototpm::pipeline::{FormFields, UploadAction, UploadOutcome, UploadPhase, UploadPipeline};

fn form() -> FormFields {
    FormFields {
        title: "Lupi ".to_string(),
        branch: " l c".to_string(),
        day: "5".to_string(),
        month: "3".to_string(),
        year: "24".to_string(),
        server: "ftp.example.org".to_string(),
        username: "capo".to_string(),
        password: "SECRET-REDACTED".to_string(),
        high_definition: false,
    }
}

fn error_of(p: &UploadPipeline) -> String {
    match p.phase() {
        UploadPhase::Error(m) => m.clone(),
        _ => panic!("expected an error phase"),
    }
}

fn listing(n: usize) -> Vec<String> {
    (1..=n).map(|i| format!("240305_LC_Lupi/240305_LC_Lupi_{:03}.JPG", i)).collect()
}

/// Runs a pipeline for `n` images up to `DoneSaving`.
fn saved(n: usize) -> UploadPipeline {
    let mut p = UploadPipeline::new();
    p.start(&form(), n);
    assert!(matches!(p.phase(), UploadPhase::Initializing));
    assert!(matches!(p.action(), UploadAction::Advance));
    p.tick(UploadOutcome::Proceed);
    match p.action() {
        UploadAction::RecreateDirectory(d) => assert_eq!(d, "240305_LC_Lupi"),
        _ => panic!("expected the directory to be created"),
    }
    p.tick(UploadOutcome::DirectoryReady);
    for i in 0..n {
        match p.action() {
            UploadAction::SaveImage { index, path, last, directory } => {
                assert_eq!(index, i);
                assert_eq!(path, format!("240305_LC_Lupi/240305_LC_Lupi_{:03}.JPG", i + 1));
                assert_eq!(last, i + 1 == n);
                assert_eq!(directory, "240305_LC_Lupi");
            },
            _ => panic!("expected a save"),
        }
        if i + 1 < n {
            p.tick(UploadOutcome::Saved);
        } else {
            p.tick(UploadOutcome::SavedLast(listing(n)));
        }
    }
    assert!(matches!(p.phase(), UploadPhase::DoneSaving));
    p
}

#[test]
fn missing_field_stops_before_anything() {
    let mut f = form();
    f.month = String::new();
    f.server = String::new();
    let mut p = UploadPipeline::new();
    p.start(&f, 3);
    assert_eq!(error_of(&p), "field month not filled");
    assert!(p.session().is_none());
    assert!(matches!(p.action(), UploadAction::Wait));
    p.reset();
    assert!(matches!(p.phase(), UploadPhase::Idle));
}

#[test]
fn start_takes_the_session_snapshot() {
    let mut p = UploadPipeline::new();
    p.start(&form(), 2);
    let s = p.session().as_ref().unwrap();
    assert_eq!(s.title, "Lupi");
    assert_eq!(s.branch_code, "LC");
    assert_eq!((s.day, s.month, s.year), (5, 3, 2024));
    assert_eq!(s.local_directory_name(), "240305_LC_Lupi");
}

#[test]
fn start_outside_idle_changes_nothing() {
    let mut p = saved(1);
    p.start(&form(), 5);
    assert!(matches!(p.phase(), UploadPhase::DoneSaving));
}

#[test]
fn done_saving_waits_for_confirmation() {
    let mut p = saved(2);
    for _ in 0..50 {
        assert!(matches!(p.action(), UploadAction::Wait));
        p.tick(UploadOutcome::Proceed);
        p.tick(UploadOutcome::Connected);
        p.tick(UploadOutcome::Uploaded);
        p.tick(UploadOutcome::SavedLast(listing(2)));
        assert!(matches!(p.phase(), UploadPhase::DoneSaving));
    }
    p.confirm_upload();
    assert!(matches!(p.phase(), UploadPhase::Connecting));
}

#[test]
fn upload_goes_in_reverse_of_save_order() {
    let mut p = saved(3);
    assert_eq!(p.files(), &vec![
        "240305_LC_Lupi/240305_LC_Lupi_003.JPG".to_string(),
        "240305_LC_Lupi/240305_LC_Lupi_002.JPG".to_string(),
        "240305_LC_Lupi/240305_LC_Lupi_001.JPG".to_string(),
    ]);
    p.confirm_upload();
    match p.action() {
        UploadAction::Connect { address, username, password } => {
            assert_eq!(address, "ftp.example.org:21");
            assert_eq!(username, "capo");
            assert_eq!(password, "SECRET-REDACTED");
        },
        _ => panic!("expected a connection"),
    }
    p.tick(UploadOutcome::Connected);
    let mut sent = Vec::new();
    for k in 0..3 {
        match p.action() {
            UploadAction::Upload { enter, file, close } => {
                if k == 0 {
                    assert_eq!(enter, Some(("2023-2024".to_string(), "240305_LC_Lupi".to_string())));
                } else {
                    assert_eq!(enter, None);
                }
                assert_eq!(close, k == 2);
                sent.push(file);
            },
            _ => panic!("expected an upload"),
        }
        p.tick(UploadOutcome::Uploaded);
    }
    assert_eq!(sent, vec![
        "240305_LC_Lupi/240305_LC_Lupi_003.JPG".to_string(),
        "240305_LC_Lupi/240305_LC_Lupi_002.JPG".to_string(),
        "240305_LC_Lupi/240305_LC_Lupi_001.JPG".to_string(),
    ]);
    assert!(matches!(p.phase(), UploadPhase::Done));
    p.reset();
    assert!(matches!(p.phase(), UploadPhase::Idle));
    assert!(p.session().is_none());
}

#[test]
fn upload_list_holds_the_saved_files_the_listing_shows() {
    let mut p = UploadPipeline::new();
    p.start(&form(), 3);
    p.tick(UploadOutcome::Proceed);
    p.tick(UploadOutcome::DirectoryReady);
    p.tick(UploadOutcome::Saved);
    p.tick(UploadOutcome::Saved);
    let mut shown = listing(3);
    shown.remove(1);
    shown.insert(0, "240305_LC_Lupi/stray.txt".to_string());
    p.tick(UploadOutcome::SavedLast(shown));
    assert_eq!(p.files(), &vec![
        "240305_LC_Lupi/240305_LC_Lupi_003.JPG".to_string(),
        "240305_LC_Lupi/240305_LC_Lupi_001.JPG".to_string(),
    ]);
}

#[test]
fn upload_order_follows_numbers_past_three_digits() {
    let p = saved(1001);
    let files = p.files();
    assert_eq!(files.len(), 1001);
    assert_eq!(files[0], "240305_LC_Lupi/240305_LC_Lupi_1001.JPG");
    assert_eq!(files[1], "240305_LC_Lupi/240305_LC_Lupi_1000.JPG");
    assert_eq!(files[2], "240305_LC_Lupi/240305_LC_Lupi_999.JPG");
    assert_eq!(files[1000], "240305_LC_Lupi/240305_LC_Lupi_001.JPG");
}

#[test]
fn listing_without_saved_files_is_a_save_failure() {
    let mut p = UploadPipeline::new();
    p.start(&form(), 1);
    p.tick(UploadOutcome::Proceed);
    p.tick(UploadOutcome::DirectoryReady);
    p.tick(UploadOutcome::SavedLast(vec!["240305_LC_Lupi/other.JPG".to_string()]));
    assert_eq!(error_of(&p), "cannot save images");
}

#[test]
fn blank_title_or_branch_counts_as_missing() {
    let mut f = form();
    f.title = " \t".to_string();
    let mut p = UploadPipeline::new();
    p.start(&f, 1);
    assert_eq!(error_of(&p), "field title not filled");
    let mut f = form();
    f.branch = "\r\n ".to_string();
    let mut p = UploadPipeline::new();
    p.start(&f, 1);
    assert_eq!(error_of(&p), "field branch not filled");
}

#[test]
fn full_year_is_kept() {
    let mut f = form();
    f.year = "2023".to_string();
    f.month = "9".to_string();
    let mut p = UploadPipeline::new();
    p.start(&f, 1);
    let s = p.session().as_ref().unwrap();
    assert_eq!(s.year, 2023);
    assert_eq!(s.date_code(), "230905");
    assert_eq!(s.season_directory(), "2023-2024");
}

#[test]
fn directory_creation_failure() {
    let mut p = UploadPipeline::new();
    p.start(&form(), 1);
    p.tick(UploadOutcome::Proceed);
    p.tick(UploadOutcome::DirectoryFailed);
    assert_eq!(error_of(&p), "cannot create folder `240305_LC_Lupi`");
}

#[test]
fn save_failure() {
    let mut p = UploadPipeline::new();
    p.start(&form(), 2);
    p.tick(UploadOutcome::Proceed);
    p.tick(UploadOutcome::DirectoryReady);
    p.tick(UploadOutcome::Saved);
    p.tick(UploadOutcome::SaveFailed);
    assert_eq!(error_of(&p), "cannot save images");
}

#[test]
fn empty_listing_after_saving_is_a_save_failure() {
    let mut p = UploadPipeline::new();
    p.start(&form(), 1);
    p.tick(UploadOutcome::Proceed);
    p.tick(UploadOutcome::DirectoryReady);
    p.tick(UploadOutcome::SavedLast(Vec::new()));
    assert_eq!(error_of(&p), "cannot save images");
}

#[test]
fn connection_failures() {
    let mut p = saved(1);
    p.confirm_upload();
    p.tick(UploadOutcome::ConnectFailed);
    assert_eq!(error_of(&p), "cannot connect to `ftp.example.org`");
    let mut p = saved(1);
    p.confirm_upload();
    p.tick(UploadOutcome::LoginFailed);
    assert_eq!(error_of(&p), "cannot authenticate on `ftp.example.org` as `capo`");
}

#[test]
fn remote_folder_failures() {
    let mut p = saved(2);
    p.confirm_upload();
    p.tick(UploadOutcome::Connected);
    p.tick(UploadOutcome::SeasonMissing);
    assert_eq!(error_of(&p), "remote folder `2023-2024` missing");
    let mut p = saved(2);
    p.confirm_upload();
    p.tick(UploadOutcome::Connected);
    p.tick(UploadOutcome::RemoteDirectoryExists);
    assert_eq!(error_of(&p), "remote folder `240305_LC_Lupi` already exists");
}

#[test]
fn transfer_failure() {
    let mut p = saved(2);
    p.confirm_upload();
    p.tick(UploadOutcome::Connected);
    p.tick(UploadOutcome::Uploaded);
    p.tick(UploadOutcome::UploadFailed);
    assert_eq!(error_of(&p), "cannot upload `240305_LC_Lupi/240305_LC_Lupi_001.JPG`");
    p.reset();
    assert!(matches!(p.phase(), UploadPhase::Idle));
}

#[test]
fn non_numeric_date_fields_count_as_zero() {
    let mut f = form();
    f.day = "x".to_string();
    f.year = "2031".to_string();
    let mut p = UploadPipeline::new();
    p.start(&f, 1);
    let s = p.session().as_ref().unwrap();
    assert_eq!((s.day, s.month, s.year), (0, 3, 2031));
    assert_eq!(s.date_code(), "310300");
}

#[test]
fn empty_collection_stops_the_run() {
    let mut p = UploadPipeline::new();
    p.start(&form(), 0);
    assert_eq!(error_of(&p), "no images to save");
    assert!(p.session().is_none());
    p.reset();
    assert!(matches!(p.phase(), UploadPhase::Idle));
}
