use narou_bridge::followed::UserDownloadSummary;
use narou_bridge::pixiv_works::tally_download;
use narou_bridge::migration::image_extensions;
use narou_bridge::pixiv_update::{
    update_begin, update_pass_end, update_pass_step, update_step, PassEnd, PassStep, UpdateAction, UpdatePass,
    UserUpdate,
};
use narou_bridge::pixiv_works::{comic_paging_step, ComicPageAction, ComicPageEvent};

fn next(step: PassStep) -> UpdatePass {
    match step {
        PassStep::Next(p) => p,
        PassStep::Refused(e) => panic!("refused: {e}"),
    }
}

#[test]
fn update_pass_counts_users_works_and_failures() {
    let pass = UpdatePass::new();
    let pass = next(update_pass_step(
        pass,
        UserUpdate::Stored { user_id: "11".to_string(), downloaded_works: 3, failures: vec![] },
    ));
    assert_eq!(update_pass_end(&pass), Ok("pixiv update refreshed 1 tracked users and stored 3 works".to_string()));
    let pass = next(update_pass_step(
        pass,
        UserUpdate::Stored {
            user_id: "12".to_string(),
            downloaded_works: 2,
            failures: vec!["novel 5: gone".to_string(), "art 6: gone".to_string()],
        },
    ));
    let pass = next(update_pass_step(
        pass,
        UserUpdate::Failed { user_id: "13".to_string(), message: "timeout".to_string(), authentication: false },
    ));
    assert_eq!(pass.updated_users, 2);
    assert_eq!(pass.downloaded_works, 5);
    assert_eq!(
        update_pass_end(&pass),
        Err("pixiv update refreshed 2 tracked users and stored 5 works, but some updates failed: user 12: novel 5: gone, art 6: gone; user 13: timeout"
            .to_string())
    );
}

#[test]
fn update_pass_stops_when_the_login_is_refused() {
    let refused = update_pass_step(
        UpdatePass::new(),
        UserUpdate::Stored {
            user_id: "11".to_string(),
            downloaded_works: 1,
            failures: vec!["novel 5: HTTP 403 Forbidden".to_string()],
        },
    );
    match refused {
        PassStep::Refused(e) => assert_eq!(e, "pixiv authentication failed: novel 5: HTTP 403 Forbidden"),
        PassStep::Next(_) => panic!("expected refusal"),
    }
    let failed = update_pass_step(
        UpdatePass::new(),
        UserUpdate::Failed { user_id: "11".to_string(), message: "profile fetch failed".to_string(), authentication: true },
    );
    match failed {
        PassStep::Refused(e) => assert_eq!(e, "profile fetch failed"),
        PassStep::Next(_) => panic!("expected refusal"),
    }
}

#[test]
fn update_skips_without_tracked_users_and_uses_default_client_without_accounts() {
    let (_, action) = update_begin(0, vec!["login".to_string()]);
    match action {
        UpdateAction::Done { result, keep } => {
            assert_eq!(result, Ok("pixiv update skipped; no tracked users in stored settings".to_string()));
            assert_eq!(keep, None);
        }
        UpdateAction::Run(_) => panic!("expected skip"),
    }
    let (mut rotation, action) = update_begin(2, vec![]);
    assert!(matches!(action, UpdateAction::Run(None)));
    match update_step(&mut rotation, PassEnd::Refused("pixiv authentication failed: x".to_string())) {
        UpdateAction::Done { result, keep } => {
            assert_eq!(result, Err("pixiv authentication failed: x".to_string()));
            assert_eq!(keep, None);
        }
        UpdateAction::Run(_) => panic!("no account to rotate to"),
    }
    let (_, action) = update_begin(1, vec![String::new()]);
    match action {
        UpdateAction::Done { result, .. } => {
            assert_eq!(result, Err("pixiv update failed with every configured account".to_string()))
        }
        UpdateAction::Run(_) => panic!("no usable account"),
    }
}

#[test]
fn update_rotates_accounts_after_refused_logins() {
    let (mut rotation, action) = update_begin(1, vec!["alpha".to_string(), "beta".to_string(), "alpha".to_string()]);
    assert!(matches!(action, UpdateAction::Run(Some(ref a)) if a == "alpha"));
    let action = update_step(&mut rotation, PassEnd::Refused("pixiv authentication failed: a".to_string()));
    assert!(matches!(action, UpdateAction::Run(Some(ref a)) if a == "beta"));
    match update_step(&mut rotation, PassEnd::Finished(Ok("done".to_string()))) {
        UpdateAction::Done { result, keep } => {
            assert_eq!(result, Ok("done".to_string()));
            assert_eq!(keep, Some("beta".to_string()));
        }
        UpdateAction::Run(_) => panic!("expected done"),
    }
    let action = update_step(
        &mut rotation,
        PassEnd::Finished(Err("user 1: HTTP 401 Unauthorized".to_string())),
    );
    match action {
        UpdateAction::Done { result, keep } => {
            assert_eq!(result, Err("user 1: HTTP 401 Unauthorized".to_string()));
            assert_eq!(keep, None);
        }
        UpdateAction::Run(_) => panic!("beta was the last account"),
    }
}

#[test]
fn update_ends_on_errors_that_are_not_refused_logins() {
    let (mut rotation, _) = update_begin(1, vec!["alpha".to_string(), "beta".to_string()]);
    match update_step(&mut rotation, PassEnd::Finished(Err("disk full".to_string()))) {
        UpdateAction::Done { result, keep } => {
            assert_eq!(result, Err("disk full".to_string()));
            assert_eq!(keep, None);
        }
        UpdateAction::Run(_) => panic!("expected done"),
    }
}

#[test]
fn comic_paging_follows_pages_until_the_listing_ends() {
    assert_eq!(comic_paging_step(1, ComicPageEvent::Failed), ComicPageAction::Fail);
    assert_eq!(comic_paging_step(3, ComicPageEvent::Failed), ComicPageAction::Stop);
    assert_eq!(
        comic_paging_step(1, ComicPageEvent::Listed { any_entries: true, has_more: true }),
        ComicPageAction::Fetch(2)
    );
    assert_eq!(
        comic_paging_step(2, ComicPageEvent::Listed { any_entries: true, has_more: false }),
        ComicPageAction::Stop
    );
    assert_eq!(
        comic_paging_step(2, ComicPageEvent::Listed { any_entries: false, has_more: true }),
        ComicPageAction::Stop
    );
}

#[test]
fn image_extension_directories_are_read_in_order() {
    assert_eq!(image_extensions(), vec!["jpg", "jpeg", "png", "gif", "apng", "webp", "bmp", "avif", "svg"]);
}

#[test]
fn user_download_tally_counts_stored_works_and_notes_failures() {
    let mut summary = UserDownloadSummary { user_id: "7".to_string(), ..UserDownloadSummary::default() };
    tally_download(&mut summary, "novel", "11", Ok(()));
    tally_download(&mut summary, "artwork", "12", Err("not found".to_string()));
    assert_eq!(summary.downloaded_works, 1);
    assert_eq!(summary.failures, vec!["artwork 12: not found".to_string()]);
    assert_eq!(summary.user_id, "7");
}
