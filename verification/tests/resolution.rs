use confbk::{FatalError, Opt, Reply, Request, Resolver};

/// A file system made up for a test.
struct FakeDisk {
    files: Vec<&'static str>,
    dirs: Vec<(&'static str, Result<Vec<&'static str>, &'static str>)>,
    others: Vec<&'static str>,
    open_failure: Option<&'static str>,
    lines: Vec<Result<&'static str, &'static str>>,
}

fn empty_disk() -> FakeDisk {
    FakeDisk { files: vec![], dirs: vec![], others: vec![], open_failure: None, lines: vec![] }
}

fn texts(items: &[&str]) -> Vec<String> {
    items.iter().map(|s| s.to_string()).collect()
}

fn request(list: &[&str], file: Option<&str>, exclude: &[&str]) -> Opt {
    Opt::new(None, false, false, false, file.map(|s| s.to_string()), texts(list), false, texts(exclude))
}

fn answer(disk: &FakeDisk, asked: &Request, next_line: &mut usize) -> Reply {
    match asked {
        Request::IsFile(p) => Reply::Flag(disk.files.contains(&p.as_str())),
        Request::IsDir(p) => Reply::Flag(disk.dirs.iter().any(|(d, _)| d == p)),
        Request::Exists(p) => Reply::Flag(
            disk.files.contains(&p.as_str())
                || disk.others.contains(&p.as_str())
                || disk.dirs.iter().any(|(d, _)| d == p),
        ),
        Request::ListFiles(p) => match disk.dirs.iter().find(|(d, _)| d == p) {
            Some((_, Ok(files))) => Reply::Files(texts(files)),
            Some((_, Err(details))) => Reply::Failed(details.to_string()),
            None => Reply::Failed("no such directory".to_string()),
        },
        Request::OpenManifest(_) => match disk.open_failure {
            None => Reply::Opened,
            Some(details) => Reply::Failed(details.to_string()),
        },
        Request::ReadLine => {
            let at = *next_line;
            *next_line += 1;
            match disk.lines.get(at) {
                Some(Ok(text)) => Reply::Line(text.to_string()),
                Some(Err(details)) => Reply::Failed(details.to_string()),
                None => Reply::EndOfFile,
            }
        }
        Request::Done => Reply::EndOfFile,
    }
}

/// Answers every request from the made-up disk. Gives the outcome and the
/// requests that were made, in order.
fn drive(opt: &Opt, disk: &FakeDisk) -> (Result<Vec<String>, FatalError>, Vec<Request>) {
    let mut run: Resolver = opt.validate_paths();
    let mut asked: Vec<Request> = Vec::new();
    let mut next_line = 0usize;
    let mut rounds = 0;
    while !run.is_done() {
        rounds += 1;
        assert!(rounds < 1000);
        let pending = run.pending();
        let reply = answer(disk, &pending, &mut next_line);
        asked.push(pending);
        run = run.step(reply);
    }
    assert_eq!(run.pending(), Request::Done);
    (run.into_outcome().unwrap(), asked)
}

#[test]
fn file_and_directory_entries_resolve_in_order() {
    let mut disk = empty_disk();
    disk.files = vec!["/cfg/a.txt", "/cfg/dir/b.txt", "/cfg/dir/c.txt"];
    disk.dirs = vec![("/cfg/dir", Ok(vec!["/cfg/dir/b.txt", "/cfg/dir/c.txt"]))];
    let (outcome, asked) = drive(&request(&["/cfg/a.txt", "/cfg/dir"], None, &[]), &disk);
    assert_eq!(outcome, Ok(texts(&["/cfg/a.txt", "/cfg/dir/b.txt", "/cfg/dir/c.txt"])));
    assert_eq!(
        asked,
        vec![
            Request::IsFile("/cfg/a.txt".to_string()),
            Request::IsFile("/cfg/dir".to_string()),
            Request::IsDir("/cfg/dir".to_string()),
            Request::ListFiles("/cfg/dir".to_string()),
        ]
    );
}

#[test]
fn manifest_alone_gives_its_lines_in_order() {
    let mut disk = empty_disk();
    disk.files = vec!["/m.txt", "/etc/x.conf", "/etc/y.conf"];
    disk.lines = vec![Ok("/etc/x.conf"), Ok("/etc/y.conf")];
    let (outcome, asked) = drive(&request(&[], Some("/m.txt"), &[]), &disk);
    assert_eq!(outcome, Ok(texts(&["/etc/x.conf", "/etc/y.conf"])));
    assert_eq!(
        asked,
        vec![
            Request::IsFile("/m.txt".to_string()),
            Request::OpenManifest("/m.txt".to_string()),
            Request::ReadLine,
            Request::Exists("/etc/x.conf".to_string()),
            Request::ReadLine,
            Request::Exists("/etc/y.conf".to_string()),
            Request::ReadLine,
        ]
    );
}

#[test]
fn missing_entry_is_path_not_found() {
    let disk = empty_disk();
    let (outcome, _) = drive(&request(&["/no/such/path"], None, &[]), &disk);
    assert_eq!(outcome, Err(FatalError::PathNotFound("/no/such/path".to_string())));
}

#[test]
fn missing_entry_stops_resolution_at_once() {
    let mut disk = empty_disk();
    disk.files = vec!["/a", "/c", "/m.txt"];
    disk.lines = vec![Ok("/a")];
    let (outcome, asked) = drive(&request(&["/a", "/b", "/c"], Some("/m.txt"), &[]), &disk);
    assert_eq!(outcome, Err(FatalError::PathNotFound("/b".to_string())));
    assert_eq!(
        asked,
        vec![
            Request::IsFile("/a".to_string()),
            Request::IsFile("/b".to_string()),
            Request::IsDir("/b".to_string()),
        ]
    );
}

#[test]
fn special_file_entry_is_path_not_found() {
    let mut disk = empty_disk();
    disk.others = vec!["/dev/null"];
    let (outcome, _) = drive(&request(&["/dev/null"], None, &[]), &disk);
    assert_eq!(outcome, Err(FatalError::PathNotFound("/dev/null".to_string())));
}

#[test]
fn missing_manifest_is_path_not_found() {
    let mut disk = empty_disk();
    disk.files = vec!["/a"];
    let (outcome, asked) = drive(&request(&["/a"], Some("/gone.txt"), &[]), &disk);
    assert_eq!(outcome, Err(FatalError::PathNotFound("/gone.txt".to_string())));
    assert_eq!(asked.last(), Some(&Request::IsFile("/gone.txt".to_string())));
}

#[test]
fn manifest_that_is_a_directory_is_path_not_found() {
    let mut disk = empty_disk();
    disk.dirs = vec![("/etc", Ok(vec![]))];
    let (outcome, _) = drive(&request(&[], Some("/etc"), &[]), &disk);
    assert_eq!(outcome, Err(FatalError::PathNotFound("/etc".to_string())));
}

#[test]
fn missing_manifest_line_is_path_not_found() {
    let mut disk = empty_disk();
    disk.files = vec!["/m.txt", "/x", "/z"];
    disk.lines = vec![Ok("/x"), Ok("/y"), Ok("/z")];
    let (outcome, asked) = drive(&request(&[], Some("/m.txt"), &[]), &disk);
    assert_eq!(outcome, Err(FatalError::PathNotFound("/y".to_string())));
    assert_eq!(asked.last(), Some(&Request::Exists("/y".to_string())));
}

#[test]
fn unreadable_manifest_line_is_io_error() {
    let mut disk = empty_disk();
    disk.files = vec!["/m.txt", "/x"];
    disk.lines = vec![Ok("/x"), Err("stream did not contain valid UTF-8"), Ok("/x")];
    let (outcome, _) = drive(&request(&[], Some("/m.txt"), &[]), &disk);
    assert_eq!(outcome, Err(FatalError::IoError("stream did not contain valid UTF-8".to_string())));
}

#[test]
fn manifest_that_does_not_open_is_io_error() {
    let mut disk = empty_disk();
    disk.files = vec!["/m.txt"];
    disk.open_failure = Some("permission denied");
    let (outcome, asked) = drive(&request(&[], Some("/m.txt"), &[]), &disk);
    assert_eq!(outcome, Err(FatalError::IoError("permission denied".to_string())));
    assert_eq!(asked.last(), Some(&Request::OpenManifest("/m.txt".to_string())));
}

#[test]
fn directory_that_cannot_be_listed_is_io_error() {
    let mut disk = empty_disk();
    disk.dirs = vec![("/locked", Err("permission denied"))];
    let (outcome, _) = drive(&request(&["/locked", "/missing"], None, &[]), &disk);
    assert_eq!(outcome, Err(FatalError::IoError("permission denied".to_string())));
}

#[test]
fn empty_directory_contributes_nothing() {
    let mut disk = empty_disk();
    disk.files = vec!["/a"];
    disk.dirs = vec![("/empty", Ok(vec![]))];
    let (outcome, _) = drive(&request(&["/empty", "/a"], None, &[]), &disk);
    assert_eq!(outcome, Ok(texts(&["/a"])));
}

#[test]
fn manifest_line_naming_a_directory_is_taken_as_it_is() {
    let mut disk = empty_disk();
    disk.files = vec!["/m.txt", "/d/f"];
    disk.dirs = vec![("/d", Ok(vec!["/d/f"]))];
    disk.lines = vec![Ok("/d")];
    let (outcome, asked) = drive(&request(&[], Some("/m.txt"), &[]), &disk);
    assert_eq!(outcome, Ok(texts(&["/d"])));
    assert!(!asked.contains(&Request::ListFiles("/d".to_string())));
}

#[test]
fn manifest_line_naming_a_special_file_is_taken() {
    let mut disk = empty_disk();
    disk.files = vec!["/m.txt"];
    disk.others = vec!["/dev/null"];
    disk.lines = vec![Ok("/dev/null")];
    let (outcome, _) = drive(&request(&[], Some("/m.txt"), &[]), &disk);
    assert_eq!(outcome, Ok(texts(&["/dev/null"])));
}

#[test]
fn explicit_entries_come_before_manifest_paths() {
    let mut disk = empty_disk();
    disk.files = vec!["/m.txt", "/z", "/a", "/d/k"];
    disk.dirs = vec![("/d", Ok(vec!["/d/k"]))];
    disk.lines = vec![Ok("/a")];
    let (outcome, _) = drive(&request(&["/z", "/d"], Some("/m.txt"), &[]), &disk);
    assert_eq!(outcome, Ok(texts(&["/z", "/d/k", "/a"])));
}

#[test]
fn path_reached_twice_appears_twice() {
    let mut disk = empty_disk();
    disk.files = vec!["/m.txt", "/d/f"];
    disk.dirs = vec![("/d", Ok(vec!["/d/f"]))];
    disk.lines = vec![Ok("/d/f")];
    let (outcome, _) = drive(&request(&["/d", "/d/f"], Some("/m.txt"), &[]), &disk);
    assert_eq!(outcome, Ok(texts(&["/d/f", "/d/f", "/d/f"])));
}

#[test]
fn empty_manifest_line_names_no_path() {
    let mut disk = empty_disk();
    disk.files = vec!["/m.txt", "/x", "/y"];
    disk.lines = vec![Ok("/x"), Ok(""), Ok("/y"), Ok("")];
    let (outcome, asked) = drive(&request(&[], Some("/m.txt"), &[]), &disk);
    assert_eq!(outcome, Ok(texts(&["/x", "/y"])));
    assert!(!asked.contains(&Request::Exists(String::new())));
}

#[test]
fn empty_manifest_gives_empty_set() {
    let mut disk = empty_disk();
    disk.files = vec!["/m.txt"];
    let (outcome, _) = drive(&request(&[], Some("/m.txt"), &[]), &disk);
    assert_eq!(outcome, Ok(Vec::<String>::new()));
}

#[test]
fn backup_set_holds_no_excluded_path() {
    let mut disk = empty_disk();
    disk.files = vec!["/m.txt", "/a/cfg1", "/b/secret/cfg2", "/c/cfg3", "/home/.secret"];
    disk.dirs = vec![("/b", Ok(vec!["/b/secret/cfg2", "/b/plain"]))];
    disk.lines = vec![Ok("/c/cfg3"), Ok("/home/.secret")];
    let (outcome, _) = drive(&request(&["/a/cfg1", "/b"], Some("/m.txt"), &["secret", "cfg3"]), &disk);
    let set = outcome.unwrap();
    assert_eq!(set, texts(&["/a/cfg1", "/b/plain"]));
    for path in &set {
        assert!(!path.contains("secret") && !path.contains("cfg3"));
    }
}

#[test]
fn exclusion_does_not_hide_a_missing_path() {
    let disk = empty_disk();
    let (outcome, _) = drive(&request(&["/secret/gone"], None, &["secret"]), &disk);
    assert_eq!(outcome, Err(FatalError::PathNotFound("/secret/gone".to_string())));
}

#[test]
fn reply_that_does_not_answer_changes_nothing() {
    let run = request(&["/a"], None, &[]).validate_paths();
    assert_eq!(run.pending(), Request::IsFile("/a".to_string()));
    let run = run.step(Reply::EndOfFile);
    assert_eq!(run.pending(), Request::IsFile("/a".to_string()));
    let run = run.step(Reply::Files(texts(&["/x"])));
    assert_eq!(run.pending(), Request::IsFile("/a".to_string()));
    let run = run.step(Reply::Flag(true));
    assert!(run.is_done());
    assert_eq!(run.into_outcome(), Some(Ok(texts(&["/a"]))));
}

#[test]
fn outcome_is_none_while_a_request_is_pending() {
    let run = request(&["/a"], None, &[]).validate_paths();
    assert!(!run.is_done());
    assert_eq!(run.into_outcome(), None);
}

#[test]
fn finished_resolution_stays_finished() {
    let run = request(&["/a"], None, &[]).validate_paths();
    let run = run.step(Reply::Flag(false)).step(Reply::Flag(false));
    assert!(run.is_done());
    let run = run.step(Reply::Flag(true)).step(Reply::Line("/x".to_string()));
    assert_eq!(run.pending(), Request::Done);
    assert_eq!(run.into_outcome(), Some(Err(FatalError::PathNotFound("/a".to_string()))));
}

#[test]
fn resolver_started_without_anything_is_done_with_empty_set() {
    let run = Resolver::start(vec![], None, texts(&["x"]));
    assert!(run.is_done());
    assert_eq!(run.into_outcome(), Some(Ok(Vec::<String>::new())));
}

#[test]
fn request_keeps_what_it_was_made_with() {
    let opt = Opt::new(
        Some("/backup".to_string()),
        true,
        false,
        true,
        Some("/m.txt".to_string()),
        texts(&["/a"]),
        true,
        texts(&["tmp"]),
    );
    assert_eq!(opt.out(), &Some("/backup".to_string()));
    assert!(opt.dry_run());
    assert!(!opt.quiet());
    assert!(opt.verbose());
    assert!(opt.tar());
    let plain = request(&["/a"], None, &[]);
    assert_eq!(plain.out(), &None);
    assert!(!plain.dry_run());
    assert!(!plain.quiet());
    assert!(!plain.verbose());
    assert!(!plain.tar());
}

#[test]
fn resolving_twice_gives_the_same_set() {
    let mut disk = empty_disk();
    disk.files = vec!["/a"];
    disk.dirs = vec![("/d", Ok(vec!["/d/1", "/d/2"]))];
    let opt = request(&["/d", "/a"], None, &["2"]);
    let (first, _) = drive(&opt, &disk);
    let (second, _) = drive(&opt, &disk);
    assert_eq!(first, Ok(texts(&["/d/1", "/a"])));
    assert_eq!(first, second);
}

#[test]
fn requests_stay_within_three_per_entry_two_per_line_and_four() {
    let mut disk = empty_disk();
    disk.files = vec!["/m.txt", "/d/f", "/x", "/y"];
    disk.dirs = vec![("/d", Ok(vec!["/d/f"]))];
    disk.lines = vec![Ok("/x"), Ok("/y")];
    let (outcome, asked) = drive(&request(&["/d"], Some("/m.txt"), &[]), &disk);
    assert_eq!(outcome, Ok(texts(&["/d/f", "/x", "/y"])));
    assert_eq!(asked.len(), 10);
    assert!(asked.len() <= 3 * 1 + 2 * 2 + 4);
}
