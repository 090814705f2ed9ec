use ce_gtk::bridge::Process;
use ce_gtk::process_list::{process_subtitle, ProcessSearch};

fn process(pid: i32, path: &str) -> Process {
    Process { pid, name: "game".to_owned(), path: path.to_owned(), sandboxed: false }
}

#[test]
fn subtitle_shows_the_pid_and_the_path() {
    assert_eq!(process_subtitle(&process(4242, "/usr/bin/game")), "PID 4242  ·  /usr/bin/game");
    assert_eq!(process_subtitle(&process(7, "")), "PID 7");
    assert_eq!(process_subtitle(&process(0, "")), "PID 0");
    assert_eq!(process_subtitle(&process(-12, "")), "PID -12");
    assert_eq!(process_subtitle(&process(i32::MIN, "")), "PID -2147483648");
    assert_eq!(process_subtitle(&process(i32::MAX, "x")), "PID 2147483647  ·  x");
}

#[test]
fn only_the_newest_search_is_shown() {
    let mut search = ProcessSearch::new();
    let first = search.begin();
    assert!(search.is_current(first));
    let second = search.begin();
    assert_ne!(first, second);
    assert!(!search.is_current(first));
    assert!(search.is_current(second));
}
