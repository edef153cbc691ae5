use quickstore::classify::{classify, Action, PathKind};
use quickstore::codec::{compressed_output_path, decompressed_output_path, packed_output_path};
use quickstore::paths::parent_of;
use quickstore::plan::plan_inputs;
use quickstore::policy::{check_overwrite, extract_destination};
use quickstore::StoreError;

fn cv(s: &str) -> Vec<char> {
    s.chars().collect()
}

fn sv(v: &[char]) -> String {
    v.iter().collect()
}

#[test]
fn classify_directory_packs() {
    assert_eq!(classify(PathKind::Directory, &cv("anything")), Action::PackTree);
    assert_eq!(classify(PathKind::Directory, &cv("even.qsf")), Action::PackTree);
}

#[test]
fn classify_missing_is_invalid() {
    assert_eq!(classify(PathKind::Missing, &cv("ghost.txt")), Action::InvalidInput);
}

#[test]
fn classify_plain_file_compresses() {
    assert_eq!(classify(PathKind::RegularFile, &cv("notes.txt")), Action::CompressFile);
    assert_eq!(classify(PathKind::RegularFile, &cv("noext")), Action::CompressFile);
    assert_eq!(classify(PathKind::RegularFile, &cv(".hidden")), Action::CompressFile);
    assert_eq!(classify(PathKind::RegularFile, &cv("trailing.")), Action::CompressFile);
}

#[test]
fn classify_recognized_suffixes() {
    assert_eq!(classify(PathKind::RegularFile, &cv("notes.txt.qsf")), Action::DecompressFile);
    assert_eq!(classify(PathKind::RegularFile, &cv("root.qst")), Action::ExtractTree);
    // exact, case-sensitive comparison on the final extension only
    assert_eq!(classify(PathKind::RegularFile, &cv("notes.QSF")), Action::CompressFile);
    assert_eq!(classify(PathKind::RegularFile, &cv("notes.qsf.txt")), Action::CompressFile);
    // the suffix is read from the base name, not from a directory name
    assert_eq!(classify(PathKind::RegularFile, &cv("dir.qst/inner")), Action::CompressFile);
}

#[test]
fn classify_reads_only_the_final_extension() {
    assert_eq!(classify(PathKind::RegularFile, &cv("a.b.qsf")), Action::DecompressFile);
    assert_eq!(classify(PathKind::RegularFile, &cv("a.qst.qsf")), Action::DecompressFile);
    assert_eq!(classify(PathKind::RegularFile, &cv("a.qsf.qst")), Action::ExtractTree);
}

#[test]
fn classify_is_deterministic() {
    let p = cv("some/dir/notes.txt.qsf");
    let first = classify(PathKind::RegularFile, &p);
    let second = classify(PathKind::RegularFile, &p);
    assert_eq!(first, second);
    assert_eq!(first, Action::DecompressFile);
}

#[test]
fn output_paths_add_and_strip_suffixes() {
    assert_eq!(sv(&compressed_output_path(&cv("notes.txt"))), "notes.txt.qsf");
    assert_eq!(sv(&packed_output_path(&cv("root"))), "root.qst");
    assert_eq!(
        sv(&decompressed_output_path(&cv("notes.txt.qsf")).unwrap()),
        "notes.txt"
    );
    assert_eq!(
        decompressed_output_path(&cv("notes.txt")),
        Err(StoreError::InvalidInput)
    );
    assert_eq!(
        decompressed_output_path(&cv("root.qst")),
        Err(StoreError::InvalidInput)
    );
}

#[test]
fn overwrite_refused_without_force() {
    assert_eq!(check_overwrite(true, false), Err(StoreError::AlreadyExists));
}

#[test]
fn overwrite_allowed_with_force_or_fresh() {
    assert_eq!(check_overwrite(true, true), Ok(()));
    assert_eq!(check_overwrite(false, false), Ok(()));
    assert_eq!(check_overwrite(false, true), Ok(()));
}

#[test]
fn extract_destination_is_relative_to_container_directory() {
    assert_eq!(
        sv(&extract_destination(&cv("dir/root.qst"), &cv("sub/b.txt"))),
        "dir/sub/b.txt"
    );
    assert_eq!(
        sv(&extract_destination(&cv("root.qst"), &cv("a.txt"))),
        "a.txt"
    );
}

#[test]
fn parent_of_splits_at_last_separator() {
    assert_eq!(sv(&parent_of(&cv("a/b/c.txt"))), "a/b");
    assert_eq!(sv(&parent_of(&cv("c.txt"))), "");
}

#[test]
fn plan_groups_restores_before_stores() {
    let items = vec![
        (PathKind::RegularFile, cv("a.qsf")),
        (PathKind::Directory, cv("d")),
        (PathKind::Missing, cv("ghost")),
        (PathKind::RegularFile, cv("c.qst")),
        (PathKind::RegularFile, cv("plain.txt")),
    ];
    let plan = plan_inputs(&items);
    let restores: Vec<(Action, String)> =
        plan.restores.iter().map(|e| (e.0, sv(&e.1))).collect();
    let stores: Vec<(Action, String)> = plan.stores.iter().map(|e| (e.0, sv(&e.1))).collect();
    let invalid: Vec<String> = plan.invalid.iter().map(|e| sv(e)).collect();
    assert_eq!(
        restores,
        vec![
            (Action::DecompressFile, "a.qsf".to_string()),
            (Action::ExtractTree, "c.qst".to_string()),
        ]
    );
    assert_eq!(
        stores,
        vec![
            (Action::PackTree, "d".to_string()),
            (Action::CompressFile, "plain.txt".to_string()),
        ]
    );
    assert_eq!(invalid, vec!["ghost".to_string()]);
}
