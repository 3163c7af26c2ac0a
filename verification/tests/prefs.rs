use rd_downloader::prefs::{
    prompt_download_path, prompt_download_threads, prompt_user_prefs, PathBufWrapper, PathCheck,
    PathEvent, PrefsError, DEFAULT_DIRECTORY_NAME, DEFAULT_DOWNLOAD_THREADS, DEFAULT_VERIFIED_ONLY,
};

fn run(events: &[PathEvent]) -> PathCheck {
    let mut state = PathCheck::Probing;
    for event in events {
        state = prompt_download_path(state, *event);
    }
    state
}

#[test]
fn defaults() {
    assert_eq!(DEFAULT_DOWNLOAD_THREADS, 3);
    assert!(DEFAULT_VERIFIED_ONLY);
    assert_eq!(DEFAULT_DIRECTORY_NAME, "rd_downloader");
}

#[test]
fn path_wrapper_keeps_text() {
    let wrapper = PathBufWrapper::from_str("/home/me/rd_downloader");
    assert_eq!(wrapper.to_string(), "/home/me/rd_downloader");
    assert_eq!(wrapper.clone().to_string(), "/home/me/rd_downloader");
    assert_eq!(PathBufWrapper::from_str("").to_string(), "");
}

#[test]
fn existing_folder_is_accepted_after_yes() {
    let probed = PathEvent::Probed { is_file: false, exists: Some(true) };
    assert_eq!(run(&[probed]), PathCheck::Confirming { exists: true });
    assert_eq!(run(&[probed]).question(), Some("Folder already exists, use it anyways?"));
    assert_eq!(run(&[probed, PathEvent::Answered(Some(true))]), PathCheck::Accepted);
}

#[test]
fn missing_folder_is_created_after_yes() {
    let probed = PathEvent::Probed { is_file: false, exists: Some(false) };
    assert_eq!(run(&[probed]).question(), Some("Folder does not exist, create it now?"));
    assert_eq!(run(&[probed, PathEvent::Answered(Some(true))]), PathCheck::Creating);
    assert_eq!(run(&[probed, PathEvent::Answered(Some(true)), PathEvent::Created(true)]), PathCheck::Accepted);
    assert_eq!(
        run(&[probed, PathEvent::Answered(Some(true)), PathEvent::Created(false)]),
        PathCheck::Rejected(PrefsError::CreateFailed)
    );
}

#[test]
fn file_is_turned_down() {
    assert_eq!(
        run(&[PathEvent::Probed { is_file: true, exists: Some(true) }]),
        PathCheck::Rejected(PrefsError::PathIsFile)
    );
    assert_eq!(
        run(&[PathEvent::Probed { is_file: true, exists: None }]),
        PathCheck::Rejected(PrefsError::PathIsFile)
    );
}

#[test]
fn failed_probe_is_turned_down() {
    assert_eq!(
        run(&[PathEvent::Probed { is_file: false, exists: None }]),
        PathCheck::Rejected(PrefsError::ProbeFailed)
    );
}

#[test]
fn no_or_failed_question_is_turned_down() {
    for exists in [true, false] {
        let probed = PathEvent::Probed { is_file: false, exists: Some(exists) };
        assert_eq!(run(&[probed, PathEvent::Answered(Some(false))]), PathCheck::Rejected(PrefsError::Canceled));
        assert_eq!(run(&[probed, PathEvent::Answered(None)]), PathCheck::Rejected(PrefsError::PromptFailed));
    }
}

#[test]
fn path_events_out_of_turn_change_nothing() {
    assert_eq!(run(&[PathEvent::Answered(Some(true))]), PathCheck::Probing);
    assert_eq!(run(&[PathEvent::Created(true)]), PathCheck::Probing);
    let probed = PathEvent::Probed { is_file: false, exists: Some(false) };
    assert_eq!(run(&[probed, PathEvent::Created(true)]), PathCheck::Confirming { exists: false });
    assert_eq!(run(&[probed, probed]), PathCheck::Confirming { exists: false });
    assert_eq!(run(&[probed, PathEvent::Answered(Some(true)), PathEvent::Answered(Some(false))]), PathCheck::Creating);
}

#[test]
fn path_check_that_is_over_stays() {
    let probed = PathEvent::Probed { is_file: false, exists: Some(true) };
    let yes = PathEvent::Answered(Some(true));
    assert_eq!(run(&[probed, yes, PathEvent::Answered(Some(false)), PathEvent::Created(false), probed]), PathCheck::Accepted);
    let file = PathEvent::Probed { is_file: true, exists: Some(true) };
    assert_eq!(run(&[file, probed, yes]), PathCheck::Rejected(PrefsError::PathIsFile));
}

#[test]
fn final_states_and_questions() {
    assert!(!PathCheck::Probing.is_final());
    assert!(!PathCheck::Confirming { exists: true }.is_final());
    assert!(!PathCheck::Creating.is_final());
    assert!(PathCheck::Accepted.is_final());
    assert!(PathCheck::Rejected(PrefsError::Canceled).is_final());
    assert_eq!(PathCheck::Probing.question(), None);
    assert_eq!(PathCheck::Creating.question(), None);
    assert_eq!(PathCheck::Accepted.question(), None);
}

#[test]
fn threads_must_be_positive() {
    assert_eq!(prompt_download_threads(0), Err(PrefsError::ZeroThreads));
    assert_eq!(prompt_download_threads(1), Ok(1));
    assert_eq!(prompt_download_threads(3), Ok(3));
    assert_eq!(prompt_download_threads(usize::MAX), Ok(usize::MAX));
}

#[test]
fn prefs_are_put_together() {
    let prefs = prompt_user_prefs(PathBufWrapper::from_str("levels"), PathCheck::Accepted, 4, false);
    let prefs = match prefs {
        Ok(prefs) => prefs,
        Err(e) => panic!("{:?}", e),
    };
    assert_eq!(prefs.download_path.to_string(), "levels");
    assert_eq!(prefs.download_threads, 4);
    assert!(!prefs.verified_only);
}

#[test]
fn prefs_fail_with_the_first_answer_turned_down() {
    let path = PathBufWrapper::from_str("levels");
    assert_eq!(prompt_user_prefs(path.clone(), PathCheck::Accepted, 0, true).err(), Some(PrefsError::ZeroThreads));
    assert_eq!(
        prompt_user_prefs(path.clone(), PathCheck::Rejected(PrefsError::Canceled), 0, true).err(),
        Some(PrefsError::Canceled)
    );
    assert_eq!(
        prompt_user_prefs(path.clone(), PathCheck::Rejected(PrefsError::PathIsFile), 2, true).err(),
        Some(PrefsError::PathIsFile)
    );
    assert_eq!(prompt_user_prefs(path.clone(), PathCheck::Probing, 2, true).err(), Some(PrefsError::PromptFailed));
    assert_eq!(prompt_user_prefs(path.clone(), PathCheck::Creating, 2, true).err(), Some(PrefsError::PromptFailed));
    assert_eq!(
        prompt_user_prefs(path, PathCheck::Confirming { exists: true }, 2, true).err(),
        Some(PrefsError::PromptFailed)
    );
}

#[test]
fn prefs_error_messages() {
    assert_eq!(PrefsError::PathIsFile.message(), "Path is file, it should be a directory.");
    assert_eq!(PrefsError::ProbeFailed.message(), "Failed to check if folder already exists.");
    assert_eq!(PrefsError::PromptFailed.message(), "Failed to ask about the folder.");
    assert_eq!(PrefsError::CreateFailed.message(), "Failed to create directory!");
    assert_eq!(PrefsError::Canceled.message(), "User canceled operation.");
    assert_eq!(PrefsError::ZeroThreads.message(), "Download threads must be an integer greater than 0.");
}
