use video_saver::commands::{get_next_filename, greet, save_video, select_folder};
use video_saver::download::{Action, Stage};
use video_saver::paths::base_name;

fn listing(names: &[&str]) -> Vec<String> {
    names.iter().map(|name| name.to_string()).collect()
}

fn path_of(folder: &str, file_name: &str) -> String {
    std::path::Path::new(folder).join(file_name).to_string_lossy().into_owned()
}

#[test]
fn greet_by_name() {
    assert_eq!(greet("World"), "Hello, World! You've been greeted from Rust!");
    assert_eq!(greet(""), "Hello, ! You've been greeted from Rust!");
}

#[test]
fn select_folder_cancelled() {
    assert_eq!(select_folder(None), Err("No folder selected".to_string()));
}

#[test]
fn select_folder_chosen() {
    assert_eq!(
        select_folder(Some("/home/me/videos".to_string())),
        Ok("/home/me/videos".to_string())
    );
    assert_eq!(select_folder(Some(String::new())), Ok(String::new()));
}

#[test]
fn base_name_is_the_final_component() {
    assert_eq!(base_name("videos"), Ok("videos".to_string()));
    assert_eq!(base_name("/tmp/videos"), Ok("videos".to_string()));
    assert_eq!(base_name("/tmp/videos/"), Ok("videos".to_string()));
    assert_eq!(base_name("some/where/my clips"), Ok("my clips".to_string()));
    assert_eq!(base_name("/tmp/videos/."), Ok("videos".to_string()));
}

#[test]
fn base_name_of_a_path_without_one() {
    let invalid: Result<String, String> = Err("Invalid folder path".to_string());
    assert_eq!(base_name(""), invalid);
    assert_eq!(base_name("/"), invalid);
    assert_eq!(base_name(".."), invalid);
    assert_eq!(base_name("/tmp/videos/.."), invalid);
}

#[test]
fn next_filename_for_videos() {
    let entries = listing(&["videos-0.mp4", "videos-2.mp4", "other.mp4"]);
    assert_eq!(get_next_filename("videos", Ok(entries)), Ok("videos-3".to_string()));
}

#[test]
fn next_filename_for_empty_clips() {
    assert_eq!(get_next_filename("clips", Ok(Vec::new())), Ok("clips-0".to_string()));
}

#[test]
fn next_filename_uses_the_final_component() {
    let entries = listing(&["videos-4.mp4", "tmp-9.mp4"]);
    assert_eq!(get_next_filename("/tmp/videos/", Ok(entries)), Ok("videos-5".to_string()));
}

#[test]
fn next_filename_for_invalid_path() {
    let entries = listing(&["videos-4.mp4"]);
    assert_eq!(get_next_filename("/", Ok(entries)), Err("Invalid folder path".to_string()));
    assert_eq!(
        get_next_filename("..", Err("permission denied".to_string())),
        Err("Invalid folder path".to_string())
    );
}

#[test]
fn next_filename_for_unreadable_folder() {
    assert_eq!(
        get_next_filename("videos", Err("No such file or directory (os error 2)".to_string())),
        Err("No such file or directory (os error 2)".to_string())
    );
}

#[test]
fn save_video_goes_through_four_steps() {
    let entries = listing(&["videos-0.mp4", "videos-2.mp4", "other.mp4"]);
    let mut plan = save_video("https://example.com/v.mp4", "/tmp/videos", Ok(entries));
    assert_eq!(plan.stage(), Stage::Requesting);
    assert_eq!(plan.action(), Action::Request);
    assert_eq!(plan.url(), "https://example.com/v.mp4");
    assert_eq!(plan.target(), path_of("/tmp/videos", "videos-3.mp4"));
    assert_eq!(plan.result(), None);

    assert_eq!(plan.advance(Ok(())), Action::CreateFile);
    assert_eq!(plan.stage(), Stage::Creating);
    assert_eq!(plan.result(), None);
    assert_eq!(plan.advance(Ok(())), Action::ReadBody);
    assert_eq!(plan.stage(), Stage::Reading);
    assert_eq!(plan.advance(Ok(())), Action::WriteBody);
    assert_eq!(plan.stage(), Stage::Writing);
    assert_eq!(plan.result(), None);
    assert_eq!(plan.advance(Ok(())), Action::Finish);
    assert_eq!(plan.stage(), Stage::Saved);
    assert_eq!(plan.result(), Some(Ok("videos-3".to_string())));
    assert_eq!(plan.url(), "https://example.com/v.mp4");
    assert_eq!(plan.target(), path_of("/tmp/videos", "videos-3.mp4"));
}

#[test]
fn save_video_target_lies_in_the_folder() {
    let plan = save_video("http://host/a", "clips", Ok(Vec::new()));
    assert_eq!(plan.target(), path_of("clips", "clips-0.mp4"));
    assert_ne!(plan.target(), "clips");
    assert_ne!(plan.target(), "clips-0.mp4");
    assert!(plan.target().ends_with("clips-0.mp4"));
    assert!(plan.target().starts_with("clips"));
}

#[test]
fn save_video_unreachable_url() {
    let mut plan = save_video("http://unreachable.invalid/v.mp4", "clips", Ok(Vec::new()));
    assert_eq!(plan.action(), Action::Request);
    let action = plan.advance(Err("error sending request".to_string()));
    assert_eq!(action, Action::Finish);
    assert_eq!(plan.stage(), Stage::Failed);
    assert_eq!(plan.result(), Some(Err("error sending request".to_string())));
}

#[test]
fn save_video_fails_with_the_message_of_the_failed_step() {
    let messages = ["request failed", "cannot create", "body cut short", "disk full"];
    let mut failing: usize = 0;
    while failing < 4 {
        let mut plan = save_video("http://host/v", "clips", Ok(listing(&["clips-1.mp4"])));
        let mut step: usize = 0;
        while step < failing {
            assert_ne!(plan.advance(Ok(())), Action::Finish);
            step += 1;
        }
        assert_eq!(plan.advance(Err(messages[failing].to_string())), Action::Finish);
        assert_eq!(plan.stage(), Stage::Failed);
        assert_eq!(plan.result(), Some(Err(messages[failing].to_string())));
        failing += 1;
    }
}

#[test]
fn save_video_finished_plan_stays() {
    let mut saved = save_video("http://host/v", "clips", Ok(Vec::new()));
    let mut step: usize = 0;
    while step < 4 {
        saved.advance(Ok(()));
        step += 1;
    }
    assert_eq!(saved.advance(Err("late".to_string())), Action::Finish);
    assert_eq!(saved.advance(Ok(())), Action::Finish);
    assert_eq!(saved.result(), Some(Ok("clips-0".to_string())));

    let mut failed = save_video("http://host/v", "clips", Ok(Vec::new()));
    failed.advance(Err("first".to_string()));
    assert_eq!(failed.advance(Err("second".to_string())), Action::Finish);
    assert_eq!(failed.advance(Ok(())), Action::Finish);
    assert_eq!(failed.result(), Some(Err("first".to_string())));
}

#[test]
fn save_video_without_a_name() {
    let mut plan = save_video("http://host/v", "/", Ok(Vec::new()));
    assert_eq!(plan.stage(), Stage::Failed);
    assert_eq!(plan.action(), Action::Finish);
    assert_eq!(plan.result(), Some(Err("Invalid folder path".to_string())));
    assert_eq!(plan.advance(Ok(())), Action::Finish);
    assert_eq!(plan.result(), Some(Err("Invalid folder path".to_string())));

    let unread = save_video("http://host/v", "clips", Err("not a directory".to_string()));
    assert_eq!(unread.action(), Action::Finish);
    assert_eq!(unread.result(), Some(Err("not a directory".to_string())));
}
