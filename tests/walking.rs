use std::collections::BTreeMap;

use rust_rm::cli::{Args, Flag, UsageError};
use rust_rm::fs::{Entry, EntryKind, Error, ErrorKind};
use rust_rm::rm::Removal;
use rust_rm::run::{Action, Event, Run};
use rust_rm::transform::Transformer;
use rust_rm::walk::{self, Reply, Request, Walker};

/// A file system held in memory: each path maps to the kind of object there.
struct Fake {
    objects: BTreeMap<String, EntryKind>,
}

impl Fake {
    fn new(objects: &[(&str, EntryKind)]) -> Fake {
        Fake { objects: objects.iter().map(|(p, k)| (p.to_string(), *k)).collect() }
    }

    fn metadata(&self, path: &str) -> Result<EntryKind, ErrorKind> {
        self.objects.get(path).copied().ok_or(ErrorKind::NotFound)
    }

    fn children(&self, path: &str) -> Vec<String> {
        let prefix = format!("{path}/");
        self.objects
            .keys()
            .filter(|p| p.starts_with(&prefix) && !p[prefix.len()..].contains('/'))
            .cloned()
            .collect()
    }

    fn is_empty(&self, path: &str) -> bool {
        self.children(path).is_empty()
    }

    fn holds(&self, path: &str) -> bool {
        self.objects.contains_key(path)
    }

    fn remove(&mut self, removal: &Removal) -> Result<(), ErrorKind> {
        match removal {
            Removal::RemoveDir(p) => {
                if !self.holds(p) {
                    Err(ErrorKind::NotFound)
                } else if !self.is_empty(p) {
                    Err(ErrorKind::DirectoryNotEmpty)
                } else {
                    self.objects.remove(p);
                    Ok(())
                }
            },
            Removal::RemoveFile(p) | Removal::Dispose(p) => {
                self.objects.remove(p).map(|_| ()).ok_or(ErrorKind::NotFound)
            },
        }
    }
}

const IDENTITY: [Transformer; 5] = [Transformer::Identity; 5];

fn drive(walker: &mut Walker, first: Request, fs: &Fake, answers: &[&str]) -> Vec<Result<Entry, Error>> {
    let mut out = Vec::new();
    let mut answers = answers.iter();
    let mut request = first;
    loop {
        let reply = match request {
            Request::Metadata(p) => Reply::Metadata(fs.metadata(&p)),
            Request::Emptiness(p) => Reply::Emptiness(fs.is_empty(&p)),
            Request::Answer(_) => Reply::Answer(Ok(answers.next().expect("an answer").to_string())),
            Request::Listing(p) => Reply::Listing(Ok(fs.children(&p))),
            Request::Outcome(o) => {
                out.push(o);
                Reply::Next
            },
            Request::Finished => return out,
        };
        assert!(walker.accepts(&reply));
        request = walker.step(reply);
    }
}

fn given(path: &str, fs: &Fake) -> Vec<Result<Entry, Error>> {
    let (mut w, first) = walk::given(IDENTITY.to_vec(), path);
    drive(&mut w, first, fs, &[])
}

fn recurse(path: &str, fs: &Fake) -> Vec<Result<Entry, Error>> {
    let (mut w, first) = walk::recurse(IDENTITY.to_vec(), path);
    drive(&mut w, first, fs, &[])
}

fn entry(path: &str, kind: EntryKind) -> Result<Entry, Error> {
    Ok(Entry::new(path, kind))
}

struct Outcome {
    reports: Vec<Result<String, Error>>,
    summary: String,
    code: u8,
}

fn args(paths: &[&str]) -> Args {
    Args {
        blind: false,
        dir: false,
        force: false,
        interactive: false,
        no_preserve_root: false,
        quiet: false,
        recursive: false,
        trash: false,
        verbose: false,
        paths: paths.iter().map(|p| p.to_string()).collect(),
    }
}

fn run(a: Args, fs: &mut Fake, answers: &[&str]) -> Outcome {
    let (mut r, mut action) = Run::new(a).expect("valid flags");
    let mut answers = answers.iter();
    let mut reports = Vec::new();
    loop {
        let event = match action {
            Action::Walk(Request::Metadata(p)) => Event::Walk(Reply::Metadata(fs.metadata(&p))),
            Action::Walk(Request::Emptiness(p)) => Event::Walk(Reply::Emptiness(fs.is_empty(&p))),
            Action::Walk(Request::Answer(_)) => {
                Event::Walk(Reply::Answer(Ok(answers.next().expect("an answer").to_string())))
            },
            Action::Walk(Request::Listing(p)) => Event::Walk(Reply::Listing(Ok(fs.children(&p)))),
            Action::Walk(other) => panic!("unexpected request {other:?}"),
            Action::Perform(removal) => match removal {
                Removal::Dispose(_) => Event::Disposed(fs.remove(&removal).map_err(|_| {
                    rust_rm::rm::TrashFailure::Other
                })),
                _ => Event::Removed(fs.remove(&removal)),
            },
            Action::Report(result) => {
                reports.push(result);
                Event::Reported
            },
            Action::Done(summary, code) => return Outcome { reports, summary, code },
        };
        assert!(r.accepts(&event));
        action = r.step(event);
    }
}

#[test]
fn given_file() {
    let fs = Fake::new(&[("file", EntryKind::File)]);
    assert_eq!(given("file", &fs), vec![entry("file", EntryKind::File)]);
}

#[test]
fn given_empty_dir() {
    let fs = Fake::new(&[("dir", EntryKind::Dir)]);
    assert_eq!(given("dir", &fs), vec![entry("dir", EntryKind::Dir)]);
}

#[test]
fn given_filled_dir() {
    let fs = Fake::new(&[("dir", EntryKind::Dir), ("dir/file", EntryKind::File)]);
    assert_eq!(given("dir", &fs), vec![entry("dir", EntryKind::Dir)]);
}

#[test]
fn given_symlink_to_filled_dir() {
    let fs = Fake::new(&[("dir", EntryKind::Dir), ("dir/file", EntryKind::File), ("link", EntryKind::Symlink)]);
    assert_eq!(given("link", &fs), vec![entry("link", EntryKind::Symlink)]);
}

#[test]
fn given_not_found() {
    let fs = Fake::new(&[]);
    assert_eq!(given("missing", &fs), vec![Err(Error::new("missing", ErrorKind::NotFound))]);
}

#[test]
fn empty_file() {
    let fs = Fake::new(&[("file", EntryKind::File)]);
    assert_eq!(recurse("file", &fs), vec![entry("file", EntryKind::File)]);
}

#[test]
fn recurse_empty_dir() {
    let fs = Fake::new(&[("dir", EntryKind::Dir)]);
    assert_eq!(recurse("dir", &fs), vec![entry("dir", EntryKind::Dir)]);
}

#[test]
fn recurse_filled_dir() {
    let fs = Fake::new(&[("dir", EntryKind::Dir), ("dir/file", EntryKind::File)]);
    assert_eq!(
        recurse("dir", &fs),
        vec![entry("dir/file", EntryKind::File), entry("dir", EntryKind::Dir)]
    );
}

#[test]
fn main_nested_dir() {
    let fs = Fake::new(&[
        ("dir", EntryKind::Dir),
        ("dir/nested_dir", EntryKind::Dir),
        ("dir/nested_dir/file1", EntryKind::File),
        ("dir/file2", EntryKind::File),
    ]);
    let out = recurse("dir", &fs);
    assert_eq!(out.len(), 4);
    assert!(out.contains(&entry("dir/file2", EntryKind::File)));
    assert!(out.contains(&entry("dir/nested_dir/file1", EntryKind::File)));
    assert!(out.contains(&entry("dir/nested_dir", EntryKind::Dir)));
    let pos = |p: &str| out.iter().position(|x| x.as_ref().map(|e| e.path() == p).unwrap_or(false));
    assert!(pos("dir/nested_dir/file1") < pos("dir/nested_dir"));
    assert_eq!(out.last(), Some(&entry("dir", EntryKind::Dir)));
}

#[test]
fn recurse_symlink_to_filled_dir() {
    let fs = Fake::new(&[("dir", EntryKind::Dir), ("dir/file", EntryKind::File), ("link", EntryKind::Symlink)]);
    assert_eq!(recurse("link", &fs), vec![entry("link", EntryKind::Symlink)]);
}

#[test]
fn recurse_not_found() {
    let fs = Fake::new(&[]);
    assert_eq!(recurse("missing", &fs), vec![Err(Error::new("missing", ErrorKind::NotFound))]);
}

#[test]
fn recurse_listing_failure() {
    let fs = Fake::new(&[("dir", EntryKind::Dir), ("dir/file", EntryKind::File)]);
    let (mut w, first) = walk::recurse(IDENTITY.to_vec(), "dir");
    assert!(matches!(first, Request::Metadata(ref p) if p == "dir"));
    let r = w.step(Reply::Metadata(fs.metadata("dir")));
    assert!(matches!(r, Request::Emptiness(_)));
    let r = w.step(Reply::Emptiness(false));
    assert!(matches!(r, Request::Listing(ref p) if p == "dir"));
    let r = w.step(Reply::Listing(Err(ErrorKind::PermissionDenied)));
    assert!(matches!(r, Request::Outcome(Err(ref e)) if *e == Error::new("dir", ErrorKind::PermissionDenied)));
    assert!(matches!(w.step(Reply::Next), Request::Finished));
    assert!(matches!(w.step(Reply::Next), Request::Finished));
}

#[test]
fn refused_directory_is_not_descended() {
    let fs = Fake::new(&[("dir", EntryKind::Dir), ("dir/file", EntryKind::File)]);
    let stages = vec![Transformer::DisallowFilledDirs];
    let (mut w, first) = walk::recurse(stages, "dir");
    let out = drive(&mut w, first, &fs, &[]);
    assert_eq!(out.len(), 1);
    let err = out[0].as_ref().expect_err("refused");
    assert_eq!(err.kind(), ErrorKind::DirectoryNotEmpty);
}

#[test]
fn interactive_questions_follow_the_walk() {
    let fs = Fake::new(&[("dir", EntryKind::Dir), ("dir/file", EntryKind::File)]);
    let stages = vec![Transformer::Interactive];
    let (mut w, first) = walk::recurse(stages, "dir");
    let mut prompts = Vec::new();
    let mut request = first;
    let mut out = Vec::new();
    loop {
        let reply = match request {
            Request::Metadata(p) => Reply::Metadata(fs.metadata(&p)),
            Request::Emptiness(p) => Reply::Emptiness(fs.is_empty(&p)),
            Request::Answer(q) => {
                prompts.push(q);
                Reply::Answer(Ok("y\n".to_string()))
            },
            Request::Listing(p) => Reply::Listing(Ok(fs.children(&p))),
            Request::Outcome(o) => {
                out.push(o);
                Reply::Next
            },
            Request::Finished => break,
        };
        request = w.step(reply);
    }
    assert_eq!(
        prompts,
        vec![
            "Descend into directory dir? [Y/n] ".to_string(),
            "Remove regular file dir/file? [Y/n] ".to_string(),
            "Remove directory dir? [Y/n] ".to_string(),
        ]
    );
    assert_eq!(out, vec![entry("dir/file", EntryKind::File), entry("dir", EntryKind::Dir)]);
}

#[test]
fn normal_success() {
    let mut fs = Fake::new(&[]);
    let out = run(args(&[]), &mut fs, &[]);
    assert_eq!(out.code, 0);
    assert!(out.reports.is_empty());
    assert_eq!(out.summary, "0 would be removed, 0 errors occurred");
}

#[test]
fn file_not_found() {
    let mut fs = Fake::new(&[]);
    let out = run(args(&["file"]), &mut fs, &[]);
    assert_eq!(out.code, 1);
    assert_eq!(
        out.reports,
        vec![Err(Error::new("file", ErrorKind::NotFound).with_tip("use '--blind' to ignore"))]
    );
    assert_eq!(out.summary, "\n0 would be removed, 1 error occurred");
}

#[test]
fn dir_and_recursive() {
    let a = Args { dir: true, recursive: true, ..args(&["dir"]) };
    let err = Run::new(a).err().expect("refused");
    assert_eq!(err, UsageError::Conflict(Flag::Dir, Flag::Recursive));
    assert_eq!(err.exit_code(), 2);
}

#[test]
fn force_and_interactive() {
    let a = Args { force: true, interactive: true, ..args(&["file"]) };
    let err = Run::new(a).err().expect("refused");
    assert_eq!(err, UsageError::Conflict(Flag::Force, Flag::Interactive));
    assert_eq!(err.exit_code(), 2);
}

#[test]
fn quiet_and_verbose() {
    let a = Args { quiet: true, verbose: true, ..args(&[]) };
    let err = Run::new(a).err().expect("refused");
    assert_eq!(err, UsageError::Conflict(Flag::Quiet, Flag::Verbose));
    assert_eq!(err.exit_code(), 2);
}

#[test]
fn scenario_empty_dir_with_dir_mode() {
    let mut fs = Fake::new(&[("dir", EntryKind::Dir)]);
    let out = run(Args { dir: true, ..args(&["dir"]) }, &mut fs, &[]);
    assert_eq!(out.reports, vec![Ok("Would remove dir".to_string())]);
    assert!(fs.holds("dir"));
    assert_eq!(out.summary, "\n1 would be removed (use '--force' to remove), 0 errors occurred");
    let out = run(Args { dir: true, force: true, ..args(&["dir"]) }, &mut fs, &[]);
    assert_eq!(out.reports, vec![Ok("Removed dir".to_string())]);
    assert_eq!(out.code, 0);
    assert_eq!(out.summary, "\n1 removed, 0 errors occurred");
    assert!(!fs.holds("dir"));
}

#[test]
fn scenario_filled_dir() {
    let mut fs = Fake::new(&[("dir", EntryKind::Dir), ("dir/file", EntryKind::File)]);
    let out = run(Args { dir: true, force: true, ..args(&["dir"]) }, &mut fs, &[]);
    assert_eq!(
        out.reports,
        vec![Err(Error::new("dir", ErrorKind::DirectoryNotEmpty).with_tip("use '--recursive' to remove"))]
    );
    assert_eq!(out.code, 1);
    assert!(fs.holds("dir/file"));
    let out = run(Args { recursive: true, force: true, ..args(&["dir"]) }, &mut fs, &[]);
    assert_eq!(
        out.reports,
        vec![Ok("Removed dir/file".to_string()), Ok("Removed dir".to_string())]
    );
    assert_eq!(out.summary, "\n2 removed, 0 errors occurred");
    assert!(!fs.holds("dir"));
    assert!(!fs.holds("dir/file"));
}

#[test]
fn scenario_blind_missing() {
    let mut fs = Fake::new(&[]);
    let out = run(Args { blind: true, ..args(&["missing"]) }, &mut fs, &[]);
    assert!(out.reports.is_empty());
    assert_eq!(out.code, 0);
    assert_eq!(out.summary, "0 would be removed, 0 errors occurred");
    let out = run(args(&["missing"]), &mut fs, &[]);
    assert_eq!(
        out.reports,
        vec![Err(Error::new("missing", ErrorKind::NotFound).with_tip("use '--blind' to ignore"))]
    );
    assert_eq!(out.code, 1);
}

#[test]
fn scenario_interactive_no() {
    let mut fs = Fake::new(&[("file", EntryKind::File)]);
    let out = run(Args { interactive: true, ..args(&["file"]) }, &mut fs, &["n"]);
    assert!(out.reports.is_empty());
    assert_eq!(out.code, 0);
    assert_eq!(out.summary, "0 removed, 0 errors occurred");
    assert!(fs.holds("file"));
}

#[test]
fn interactive_yes() {
    let mut fs = Fake::new(&[("file", EntryKind::File)]);
    let out = run(Args { interactive: true, ..args(&["file"]) }, &mut fs, &["Yes"]);
    assert_eq!(out.reports, vec![Ok("Removed file".to_string())]);
    assert!(!fs.holds("file"));
}

#[test]
fn resolve_after_removal_is_not_found() {
    let mut fs = Fake::new(&[("file", EntryKind::File), ("dir", EntryKind::Dir), ("link", EntryKind::Symlink)]);
    for (path, kind) in [("file", EntryKind::File), ("dir", EntryKind::Dir), ("link", EntryKind::Symlink)] {
        assert_eq!(given(path, &fs), vec![entry(path, kind)]);
    }
    let out = run(Args { dir: true, force: true, ..args(&["file", "dir", "link"]) }, &mut fs, &[]);
    assert_eq!(out.reports.len(), 3);
    for path in ["file", "dir", "link"] {
        assert_eq!(given(path, &fs), vec![Err(Error::new(path, ErrorKind::NotFound))]);
    }
}

#[test]
fn found_path_and_missing_path() {
    let mut fs = Fake::new(&[("file", EntryKind::File)]);
    let out = run(Args { force: true, ..args(&["file", "missing"]) }, &mut fs, &[]);
    assert_eq!(out.reports.len(), 2);
    assert_eq!(out.reports[0], Ok("Removed file".to_string()));
    assert!(out.reports[1].is_err());
    assert_eq!(out.code, 1);
    assert_eq!(out.summary, "\n1 removed, 1 error occurred");
}

#[test]
fn current_and_parent_directory_refused() {
    let mut fs = Fake::new(&[(".", EntryKind::Dir), ("..", EntryKind::Dir)]);
    let out = run(Args { recursive: true, force: true, ..args(&[".", ".."]) }, &mut fs, &[]);
    assert_eq!(
        out.reports,
        vec![Err(Error::new(".", ErrorKind::Refused)), Err(Error::new("..", ErrorKind::Refused))]
    );
}

#[test]
fn file_system_root() {
    let mut fs = Fake::new(&[("/", EntryKind::Dir), ("//etc", EntryKind::Dir)]);
    let out = run(Args { recursive: true, force: true, ..args(&["/"]) }, &mut fs, &[]);
    assert_eq!(out.reports, vec![Err(Error::new("/", ErrorKind::Refused))]);
    assert_eq!(out.code, 1);
}

#[test]
fn trash_moves_whole_directory() {
    let mut fs = Fake::new(&[("dir", EntryKind::Dir), ("dir/file", EntryKind::File)]);
    let out = run(Args { recursive: true, trash: true, ..args(&["dir"]) }, &mut fs, &[]);
    assert_eq!(out.reports, vec![Ok("Would move dir to trash".to_string())]);
    let out = run(Args { recursive: true, trash: true, force: true, ..args(&["dir/file"]) }, &mut fs, &[]);
    assert_eq!(out.reports, vec![Ok("Moved dir/file to trash".to_string())]);
}

#[test]
fn skipped_paths() {
    let fs = Fake::new(&[("file1", EntryKind::File)]);
    let a = Args { blind: true, ..args(&["missing", "file1"]) };
    let (mut r, mut action) = Run::new(a).expect("valid flags");
    let mut notes = Vec::new();
    let mut reports = Vec::new();
    loop {
        let event = match action {
            Action::Walk(Request::Metadata(p)) => Event::Walk(Reply::Metadata(fs.metadata(&p))),
            Action::Walk(Request::Emptiness(p)) => Event::Walk(Reply::Emptiness(fs.is_empty(&p))),
            Action::Report(result) => {
                reports.push(result);
                Event::Reported
            },
            Action::Done(_, code) => {
                assert_eq!(code, 0);
                break;
            },
            other => panic!("unexpected action {other:?}"),
        };
        action = r.step(event);
        notes.extend(r.take_notes());
    }
    assert_eq!(notes, vec!["skipped missing: Not found".to_string()]);
    assert_eq!(reports, vec![Ok("Would remove file1".to_string())]);
}

#[test]
fn skip_note_is_taken_once() {
    let stages = vec![Transformer::SkipNotFound];
    let (mut w, _first) = walk::given(stages, "missing");
    assert_eq!(w.take_skip_note(), None);
    let r = w.step(Reply::Metadata(Err(ErrorKind::NotFound)));
    assert!(matches!(r, Request::Finished));
    assert_eq!(w.take_skip_note(), Some("skipped missing: Not found".to_string()));
    assert_eq!(w.take_skip_note(), None);
}
