use rust_rm::cli::{
    check_conflicts, is_dry_run, parse_args, parse_args_gnu_mode, parse_vars, remover_for,
    transformers_for, verbosity, walks_recursively, Args, Flag, UsageError, Vars, Verbosity,
};
use rust_rm::fs::{open, Entry, EntryKind, Error, ErrorKind};
use rust_rm::lang::pluralize;
use rust_rm::rm::{disposed, removal_for, removed, show_dispose, show_remove, Removal, Remover, TrashFailure};
use rust_rm::transform::{
    answer_from_line, disallow_all_dirs, disallow_current_and_parent_dir, disallow_filled_dirs,
    disallow_root, identity, interact_transform, interpret_answer, is_current_or_parent_dir,
    is_root, new_prompt_for, run_stages, skip_not_found, tip_not_found, Answer, Transformer,
};
use rust_rm::walk::Item;

fn args() -> Args {
    Args {
        blind: false,
        dir: false,
        force: false,
        interactive: false,
        no_preserve_root: false,
        quiet: false,
        recursive: false,
        trash: false,
        verbose: false,
        paths: Vec::new(),
    }
}

fn file_item(path: &str) -> Item {
    Item::new(Ok(Entry::new(path, EntryKind::File)))
}

fn dir_item(path: &str) -> Item {
    Item::new(Ok(Entry::new(path, EntryKind::Dir)))
}

fn error_item(path: &str, kind: ErrorKind) -> Item {
    Item::new(Err(Error::new(path, kind)))
}

#[test]
fn main_file() {
    let out = open("file", Ok(EntryKind::File));
    assert_eq!(out, Ok(Entry::new("file", EntryKind::File)));
}

#[test]
fn dir() {
    let out = open("dir", Ok(EntryKind::Dir));
    assert_eq!(out, Ok(Entry::new("dir", EntryKind::Dir)));
}

#[test]
fn main_symlink() {
    let out = open("link", Ok(EntryKind::Symlink));
    assert_eq!(out, Ok(Entry::new("link", EntryKind::Symlink)));
}

#[test]
fn main_not_found() {
    let out = open("missing", Err(ErrorKind::NotFound));
    assert_eq!(out, Err(Error::new("missing", ErrorKind::NotFound)));
}

#[test]
fn open_permission_denied() {
    let out = open("secret", Err(ErrorKind::PermissionDenied));
    assert_eq!(out, Err(Error::new("secret", ErrorKind::PermissionDenied)));
}

#[test]
fn entry_accessors() {
    let entry = Entry::new("some/dir", EntryKind::Dir);
    assert!(entry.is_dir());
    assert_eq!(entry.kind(), EntryKind::Dir);
    assert_eq!(entry.path(), "some/dir");
    assert!(!Entry::new("f", EntryKind::File).is_dir());
    let err = entry.into_err(ErrorKind::Unknown);
    assert_eq!(err.kind(), ErrorKind::Unknown);
    assert_eq!(err.path(), "some/dir");
    assert_eq!(err.tip(), None);
}

#[test]
fn error_with_tip() {
    let err = Error::new("x", ErrorKind::NotFound).with_tip("a tip");
    assert_eq!(err.tip(), Some("a tip".to_owned()));
    assert_eq!(err.kind(), ErrorKind::NotFound);
    assert_eq!(err.path(), "x");
}

#[test]
fn display_without_tip() {
    let err = Error::new("file", ErrorKind::PermissionDenied);
    assert_eq!(err.message(), "Cannot remove file: Permission denied");
}

#[test]
fn display_with_tip() {
    let err = Error::new("dir", ErrorKind::IsADirectory).with_tip("use '--dir' to remove");
    assert_eq!(err.message(), "Cannot remove dir: Is a directory (use '--dir' to remove)");
}

#[test]
fn error_kind_descriptions() {
    assert_eq!(ErrorKind::DirectoryNotEmpty.description(), "Directory not empty");
    assert_eq!(ErrorKind::IsADirectory.description(), "Is a directory");
    assert_eq!(ErrorKind::NotFound.description(), "Not found");
    assert_eq!(ErrorKind::PermissionDenied.description(), "Permission denied");
    assert_eq!(ErrorKind::Refused.description(), "Refused to remove");
    assert_eq!(ErrorKind::Unknown.description(), "Unknown error");
}

#[test]
fn into_skipped() {
    let item = file_item("file").into_skipped("some reason");
    assert_eq!(item.skip_reason(), Some("some reason".to_owned()));
    assert!(item.is_skipped());
    assert!(!item.is_visited());
}

#[test]
fn into_visited() {
    let item = file_item("file").into_visited();
    assert!(item.is_visited());
    assert_eq!(item.skip_reason(), None);
}

#[test]
fn path_entry() {
    assert_eq!(file_item("a/b").path(), "a/b");
}

#[test]
fn path_error() {
    assert_eq!(error_item("a/c", ErrorKind::Unknown).path(), "a/c");
}

#[test]
fn any_item() {
    for item in [file_item("f"), dir_item("d"), error_item("e", ErrorKind::NotFound)] {
        let expected = item.duplicate();
        assert_eq!(identity(item), expected);
    }
    let skipped = file_item("f").into_skipped("why");
    let expected = skipped.duplicate();
    assert_eq!(identity(skipped), expected);
}

#[test]
fn identity_stage_leaves_outcome() {
    let item = error_item("x", ErrorKind::Refused);
    let expected = item.duplicate();
    assert_eq!(Transformer::Identity.apply(item, false), expected);
}

#[test]
fn not_a_directory() {
    for item in [file_item("f"), error_item("e", ErrorKind::NotFound)] {
        let expected = item.duplicate();
        assert_eq!(disallow_all_dirs(item), expected);
    }
}

#[test]
fn a_directory() {
    let out = disallow_all_dirs(dir_item("dir"));
    let err = out.inner.expect_err("a directory is refused");
    assert_eq!(err.kind(), ErrorKind::IsADirectory);
    assert_eq!(err.path(), "dir");
    assert_eq!(err.tip(), Some("use '--dir' to remove".to_owned()));
}

#[test]
fn not_current_nor_parent_dir() {
    for item in [file_item("file"), dir_item("a/b"), dir_item("..a"), error_item(".", ErrorKind::NotFound)] {
        let expected = item.duplicate();
        assert_eq!(disallow_current_and_parent_dir(item), expected);
    }
}

#[test]
fn entry_current_directory() {
    for path in [".", "./.", "../.", "./../."] {
        let out = disallow_current_and_parent_dir(dir_item(path));
        let err = out.inner.expect_err("the current directory is refused");
        assert_eq!(err.kind(), ErrorKind::Refused);
        assert_eq!(err.path(), path);
        assert_eq!(err.tip(), None);
    }
}

#[test]
fn entry_parent_directory() {
    for path in ["..", "./..", "../..", "a/.."] {
        assert!(is_current_or_parent_dir(path));
        let out = disallow_current_and_parent_dir(dir_item(path));
        let err = out.inner.expect_err("the parent directory is refused");
        assert_eq!(err.kind(), ErrorKind::Refused);
        assert_eq!(err.path(), path);
    }
}

#[test]
fn non_dir() {
    let item = file_item("file");
    let expected = item.duplicate();
    assert_eq!(disallow_filled_dirs(item, false), expected);
}

#[test]
fn entry_empty_dir() {
    let item = dir_item("dir");
    let expected = item.duplicate();
    assert_eq!(disallow_filled_dirs(item, true), expected);
}

#[test]
fn entry_filled_dir() {
    let out = disallow_filled_dirs(dir_item("dir"), false);
    let err = out.inner.expect_err("a filled directory is refused");
    assert_eq!(err.kind(), ErrorKind::DirectoryNotEmpty);
    assert_eq!(err.path(), "dir");
    assert_eq!(err.tip(), Some("use '--recursive' to remove".to_owned()));
}

#[test]
fn non_root() {
    for item in [dir_item("/home"), file_item("file"), dir_item("a/b")] {
        let expected = item.duplicate();
        assert_eq!(disallow_root(item), expected);
    }
}

#[test]
fn entry_root() {
    assert!(is_root("/"));
    let out = disallow_root(dir_item("/"));
    let err = out.inner.expect_err("the root is refused");
    assert_eq!(err.kind(), ErrorKind::Refused);
    assert_eq!(err.path(), "/");
    assert_eq!(err.tip(), None);
}

#[test]
fn root_without_guard_is_untouched() {
    let item = dir_item("/");
    let expected = item.duplicate();
    assert_eq!(identity(item), expected);
}

#[test]
fn found_or_error() {
    for item in [file_item("f"), error_item("e", ErrorKind::PermissionDenied)] {
        let expected = item.duplicate();
        assert_eq!(skip_not_found(item), expected);
    }
}

#[test]
fn not_found() {
    let out = skip_not_found(error_item("missing", ErrorKind::NotFound));
    assert_eq!(out.skip_reason(), Some("Not found".to_owned()));
}

#[test]
fn found() {
    for item in [file_item("f"), error_item("e", ErrorKind::Unknown)] {
        let expected = item.duplicate();
        assert_eq!(tip_not_found(item), expected);
    }
}

#[test]
fn tip_for_not_found() {
    let out = tip_not_found(error_item("missing", ErrorKind::NotFound));
    let err = out.inner.expect_err("still an error");
    assert_eq!(err.kind(), ErrorKind::NotFound);
    assert_eq!(err.path(), "missing");
    assert_eq!(err.tip(), Some("use '--blind' to ignore".to_owned()));
}

#[test]
fn transform_answer_yes() {
    for answer in ["y", "Y", "yes", "YES", "Yes"] {
        let item = file_item("file");
        let expected = item.duplicate();
        assert_eq!(interact_transform(Ok(answer.to_owned()), item), expected);
    }
}

#[test]
fn transform_answer_no() {
    for answer in ["n", "N", "no", "NO", "nO"] {
        let out = interact_transform(Ok(answer.to_owned()), file_item("file"));
        assert_eq!(out.skip_reason(), Some("Kept by user".to_owned()));
    }
}

#[test]
fn transform_answer_nonsense() {
    for answer in ["", "maybe", "yess", "invalid answer"] {
        let out = interact_transform(Ok(answer.to_owned()), file_item("file"));
        assert_eq!(out.skip_reason(), Some("Unrecognized input".to_owned()));
    }
}

#[test]
fn transform_io_error() {
    let out = interact_transform(Err(()), file_item("file"));
    assert_eq!(out.skip_reason(), Some("I/O error".to_owned()));
}

#[test]
fn interpret_folded_answers() {
    assert_eq!(interpret_answer("y"), Answer::Yes);
    assert_eq!(interpret_answer("yes"), Answer::Yes);
    assert_eq!(interpret_answer("n"), Answer::No);
    assert_eq!(interpret_answer("no"), Answer::No);
    assert_eq!(interpret_answer("YES"), Answer::Unrecognized);
    assert_eq!(interpret_answer("nope"), Answer::Unrecognized);
}

#[test]
fn prompt_input() {
    assert_eq!(answer_from_line("  yes \n"), "yes");
    assert_eq!(answer_from_line("n\n"), "n");
}

#[test]
fn new_prompt_for_file_filled() {
    let entry = Entry::new("file", EntryKind::File);
    assert_eq!(new_prompt_for(&entry, false, false), "Remove regular file file? [Y/n] ");
    assert_eq!(new_prompt_for(&entry, true, false), "Remove regular file file? [Y/n] ");
}

#[test]
fn new_prompt_for_dir_empty() {
    let entry = Entry::new("dir", EntryKind::Dir);
    assert_eq!(new_prompt_for(&entry, false, true), "Remove empty directory dir? [Y/n] ");
}

#[test]
fn new_prompt_for_visited_dir_empty() {
    let entry = Entry::new("dir", EntryKind::Dir);
    assert_eq!(new_prompt_for(&entry, true, true), "Remove empty directory dir? [Y/n] ");
}

#[test]
fn new_prompt_for_dir_filled() {
    let entry = Entry::new("dir", EntryKind::Dir);
    assert_eq!(new_prompt_for(&entry, false, false), "Descend into directory dir? [Y/n] ");
}

#[test]
fn new_prompt_for_visited_dir_filled() {
    let entry = Entry::new("dir", EntryKind::Dir);
    assert_eq!(new_prompt_for(&entry, true, false), "Remove directory dir? [Y/n] ");
}

#[test]
fn new_prompt_for_symlink_to_file() {
    let entry = Entry::new("link", EntryKind::Symlink);
    assert_eq!(new_prompt_for(&entry, false, true), "Remove symbolic link link? [Y/n] ");
    assert_eq!(new_prompt_for(&entry, true, true), "Remove symbolic link link? [Y/n] ");
}

#[test]
fn stages_stop_at_interactive() {
    let ts = vec![Transformer::DisallowRoot, Transformer::Interactive, Transformer::Identity];
    let (item, stop) = run_stages(&ts, file_item("file"), 0, true);
    assert_eq!(stop, 1);
    assert_eq!(item, file_item("file"));
    let (item, stop) = run_stages(&ts, error_item("e", ErrorKind::Unknown), 0, true);
    assert_eq!(stop, 3);
    assert_eq!(item, error_item("e", ErrorKind::Unknown));
}

#[test]
fn zero() {
    assert_eq!(pluralize("error", 0), "0 errors");
}

#[test]
fn one() {
    assert_eq!(pluralize("error", 1), "1 error");
}

#[test]
fn many() {
    assert_eq!(pluralize("error", 2), "2 errors");
    assert_eq!(pluralize("file", 1234567), "1234567 files");
    assert_eq!(pluralize("x", usize::MAX), format!("{} xs", usize::MAX));
}

#[test]
fn show_remove_anything() {
    let out = show_remove(Entry::new("some/file", EntryKind::File));
    assert_eq!(out, Ok("Would remove some/file".to_owned()));
}

#[test]
fn show_dispose_anything() {
    let out = show_dispose(Entry::new("dir", EntryKind::Dir));
    assert_eq!(out, Ok("Would move dir to trash".to_owned()));
}

#[test]
fn remove_file_result() {
    let entry = Entry::new("file", EntryKind::File);
    assert!(matches!(removal_for(&entry), Removal::RemoveFile(p) if p == "file"));
    assert_eq!(removed(entry, Ok(())), Ok("Removed file".to_owned()));
}

#[test]
fn remove_dir_result() {
    let entry = Entry::new("dir", EntryKind::Dir);
    assert!(matches!(removal_for(&entry), Removal::RemoveDir(p) if p == "dir"));
    assert_eq!(
        removed(entry, Err(ErrorKind::DirectoryNotEmpty)),
        Err(Error::new("dir", ErrorKind::DirectoryNotEmpty))
    );
}

#[test]
fn remove_symlink_unlinks() {
    let entry = Entry::new("link", EntryKind::Symlink);
    assert!(matches!(removal_for(&entry), Removal::RemoveFile(p) if p == "link"));
}

#[test]
fn dispose_results() {
    let entry = Entry::new("file", EntryKind::File);
    assert_eq!(disposed(entry.clone(), Ok(())), Ok("Moved file to trash".to_owned()));
    assert_eq!(
        disposed(entry.clone(), Err(TrashFailure::CouldNotAccess)),
        Err(Error::new("file", ErrorKind::PermissionDenied))
    );
    assert_eq!(
        disposed(entry.clone(), Err(TrashFailure::TargetedRoot)),
        Err(Error::new("file", ErrorKind::Refused))
    );
    assert_eq!(
        disposed(entry.clone(), Err(TrashFailure::FileSystem(ErrorKind::NotFound))),
        Err(Error::new("file", ErrorKind::NotFound))
    );
    assert_eq!(
        disposed(entry, Err(TrashFailure::Other)),
        Err(Error::new("file", ErrorKind::Unknown))
    );
}

#[test]
fn debug_not_set() {
    let vars = vec![("HOME".to_owned(), "/root".to_owned())];
    let out = parse_vars(&vars);
    assert!(!out.debug);
    assert!(!out.gnu_mode);
}

#[test]
fn debug_set() {
    let vars = vec![("A".to_owned(), "1".to_owned()), ("DEBUG".to_owned(), "".to_owned())];
    assert!(parse_vars(&vars).debug);
}

#[test]
fn gnu_mode_set() {
    let vars = vec![("RUST_RM_GNU_MODE".to_owned(), "0".to_owned())];
    let out = parse_vars(&vars);
    assert!(out.gnu_mode);
    assert!(!out.debug);
}

#[test]
fn disallow_dir_with_recursive() {
    let a = Args { dir: true, recursive: true, ..args() };
    assert_eq!(check_conflicts(&a), Err(UsageError::Conflict(Flag::Dir, Flag::Recursive)));
}

#[test]
fn disallow_force_with_interactive() {
    let a = Args { force: true, interactive: true, ..args() };
    assert_eq!(check_conflicts(&a), Err(UsageError::Conflict(Flag::Force, Flag::Interactive)));
}

#[test]
fn disallow_quiet_with_verbose() {
    let a = Args { quiet: true, verbose: true, ..args() };
    let err = check_conflicts(&a).expect_err("quiet and verbose conflict");
    assert_eq!(err, UsageError::Conflict(Flag::Quiet, Flag::Verbose));
    assert_eq!(err.message(), "the argument '--quiet' cannot be used with '--verbose'");
    assert_eq!(err.exit_code(), 2);
}

#[test]
fn debug_and_verbose() {
    let vars = Vars { debug: true, gnu_mode: false };
    let out = parse_args(args(), vars).expect("no conflict");
    assert!(out.verbose);
}

#[test]
fn not_verbose() {
    let vars = Vars { debug: false, gnu_mode: false };
    let out = parse_args(args(), vars).expect("no conflict");
    assert!(!out.verbose);
}

#[test]
fn blind_when_force_long_name() {
    let out = parse_args_gnu_mode(Args { force: true, ..args() }).expect("supported");
    assert!(out.blind);
    assert!(out.force);
    assert!(out.quiet);
    assert!(!out.trash);
}

#[test]
fn force_when_not_interactive() {
    let out = parse_args_gnu_mode(args()).expect("supported");
    assert!(out.force);
    assert!(!out.blind);
}

#[test]
fn not_force_when_interactive_long_name() {
    let out = parse_args_gnu_mode(Args { interactive: true, ..args() }).expect("supported");
    assert!(!out.force);
    assert!(out.interactive);
}

#[test]
fn disallow_blind_full_name() {
    let err = parse_args_gnu_mode(Args { blind: true, ..args() }).expect_err("unsupported");
    assert_eq!(err, UsageError::NotSupported(Flag::Blind));
    assert_eq!(err.message(), "option --blind not supported in GNU mode");
}

#[test]
fn disallow_quiet_full_name() {
    let err = parse_args_gnu_mode(Args { quiet: true, ..args() }).expect_err("unsupported");
    assert_eq!(err, UsageError::NotSupported(Flag::Quiet));
}

#[test]
fn disallow_trash_full_name() {
    let err = parse_args_gnu_mode(Args { trash: true, ..args() }).expect_err("unsupported");
    assert_eq!(err, UsageError::NotSupported(Flag::Trash));
}

#[test]
fn gnu_mode_through_parse_args() {
    let vars = Vars { debug: false, gnu_mode: true };
    let out = parse_args(Args { force: true, ..args() }, vars).expect("supported");
    assert!(out.blind);
    assert!(out.quiet);
}

#[test]
fn configuration_selection() {
    let a = Args { force: true, recursive: true, ..args() };
    assert!(!is_dry_run(&a));
    assert_eq!(remover_for(&a), Remover::Remove);
    assert!(walks_recursively(&a));
    assert_eq!(
        transformers_for(&a),
        vec![
            Transformer::DisallowCurrentAndParentDir,
            Transformer::DisallowRoot,
            Transformer::TipNotFound,
            Transformer::Identity,
            Transformer::Identity,
        ]
    );
    let b = Args { blind: true, dir: true, interactive: true, no_preserve_root: true, trash: true, recursive: true, ..args() };
    assert_eq!(remover_for(&b), Remover::Dispose);
    assert!(!walks_recursively(&b));
    let c = Args { blind: true, dir: true, interactive: true, no_preserve_root: true, ..args() };
    assert_eq!(
        transformers_for(&c),
        vec![
            Transformer::DisallowCurrentAndParentDir,
            Transformer::Identity,
            Transformer::SkipNotFound,
            Transformer::DisallowFilledDirs,
            Transformer::Interactive,
        ]
    );
    assert_eq!(remover_for(&args()), Remover::ShowRemove);
    assert_eq!(remover_for(&Args { trash: true, ..args() }), Remover::ShowDispose);
}

#[test]
fn verbosity_levels() {
    assert_eq!(verbosity(&args()), Verbosity::Normal);
    assert_eq!(verbosity(&Args { quiet: true, ..args() }), Verbosity::Normal);
    assert_eq!(verbosity(&Args { quiet: true, force: true, ..args() }), Verbosity::Quiet);
    assert_eq!(verbosity(&Args { verbose: true, ..args() }), Verbosity::Verbose);
}
