use precommit::change::{
    STATUS_INDEX_DELETED, STATUS_INDEX_MODIFIED, STATUS_INDEX_NEW, STATUS_INDEX_RENAMED,
    STATUS_INDEX_TYPECHANGE, STATUS_WT_DELETED, STATUS_WT_MODIFIED, STATUS_WT_NEW,
    STATUS_WT_RENAMED, STATUS_WT_TYPECHANGE,
};
use precommit::{ChangeKind, ChangedFile};

#[test]
fn status_flags_have_the_values_of_git() {
    assert_eq!(STATUS_INDEX_NEW, 1u32 << 0);
    assert_eq!(STATUS_INDEX_MODIFIED, 1u32 << 1);
    assert_eq!(STATUS_INDEX_DELETED, 1u32 << 2);
    assert_eq!(STATUS_INDEX_RENAMED, 1u32 << 3);
    assert_eq!(STATUS_INDEX_TYPECHANGE, 1u32 << 4);
    assert_eq!(STATUS_WT_NEW, 1u32 << 7);
    assert_eq!(STATUS_WT_MODIFIED, 1u32 << 8);
    assert_eq!(STATUS_WT_DELETED, 1u32 << 9);
    assert_eq!(STATUS_WT_TYPECHANGE, 1u32 << 10);
    assert_eq!(STATUS_WT_RENAMED, 1u32 << 11);
}

#[test]
fn status_flags_agree_with_git2() {
    assert_eq!(STATUS_INDEX_NEW, git2::Status::INDEX_NEW.bits());
    assert_eq!(STATUS_INDEX_MODIFIED, git2::Status::INDEX_MODIFIED.bits());
    assert_eq!(STATUS_INDEX_DELETED, git2::Status::INDEX_DELETED.bits());
    assert_eq!(STATUS_INDEX_RENAMED, git2::Status::INDEX_RENAMED.bits());
    assert_eq!(STATUS_INDEX_TYPECHANGE, git2::Status::INDEX_TYPECHANGE.bits());
    assert_eq!(STATUS_WT_NEW, git2::Status::WT_NEW.bits());
    assert_eq!(STATUS_WT_MODIFIED, git2::Status::WT_MODIFIED.bits());
    assert_eq!(STATUS_WT_DELETED, git2::Status::WT_DELETED.bits());
    assert_eq!(STATUS_WT_TYPECHANGE, git2::Status::WT_TYPECHANGE.bits());
    assert_eq!(STATUS_WT_RENAMED, git2::Status::WT_RENAMED.bits());
}

#[test]
fn deletion_is_read_as_git2_reads_it() {
    let mut bits: u32 = 0;
    while bits < 0x10000 {
        let status = git2::Status::from_bits_truncate(bits);
        let gone = status.is_wt_deleted() || status.is_index_deleted();
        assert_eq!(ChangeKind::from_status_bits(bits).is_deleted(), gone);
        assert_eq!(ChangeKind::from_status_bits(bits) == ChangeKind::Deleted, gone);
        bits += 1;
    }
}

#[test]
fn no_flag_is_unmodified() {
    assert_eq!(ChangeKind::from_status_bits(0), ChangeKind::Unmodified);
}

#[test]
fn ignored_and_conflicted_alone_are_unmodified() {
    assert_eq!(ChangeKind::from_status_bits(1u32 << 14), ChangeKind::Unmodified);
    assert_eq!(ChangeKind::from_status_bits(1u32 << 15), ChangeKind::Unmodified);
}

#[test]
fn each_flag_alone_gives_its_kind() {
    assert_eq!(ChangeKind::from_status_bits(STATUS_INDEX_NEW), ChangeKind::Added);
    assert_eq!(ChangeKind::from_status_bits(STATUS_WT_NEW), ChangeKind::Added);
    assert_eq!(ChangeKind::from_status_bits(STATUS_INDEX_MODIFIED), ChangeKind::Modified);
    assert_eq!(ChangeKind::from_status_bits(STATUS_WT_MODIFIED), ChangeKind::Modified);
    assert_eq!(ChangeKind::from_status_bits(STATUS_INDEX_TYPECHANGE), ChangeKind::Modified);
    assert_eq!(ChangeKind::from_status_bits(STATUS_WT_TYPECHANGE), ChangeKind::Modified);
    assert_eq!(ChangeKind::from_status_bits(STATUS_INDEX_DELETED), ChangeKind::Deleted);
    assert_eq!(ChangeKind::from_status_bits(STATUS_WT_DELETED), ChangeKind::Deleted);
    assert_eq!(ChangeKind::from_status_bits(STATUS_INDEX_RENAMED), ChangeKind::Renamed);
    assert_eq!(ChangeKind::from_status_bits(STATUS_WT_RENAMED), ChangeKind::Renamed);
}

#[test]
fn deletion_wins_over_every_other_flag() {
    assert_eq!(
        ChangeKind::from_status_bits(STATUS_INDEX_NEW | STATUS_WT_DELETED),
        ChangeKind::Deleted
    );
    assert_eq!(
        ChangeKind::from_status_bits(STATUS_INDEX_DELETED | STATUS_WT_NEW),
        ChangeKind::Deleted
    );
    assert_eq!(ChangeKind::from_status_bits(0xffff_ffff), ChangeKind::Deleted);
}

#[test]
fn rename_wins_over_addition_and_modification() {
    assert_eq!(
        ChangeKind::from_status_bits(STATUS_INDEX_RENAMED | STATUS_INDEX_MODIFIED | STATUS_WT_NEW),
        ChangeKind::Renamed
    );
    assert_eq!(
        ChangeKind::from_status_bits(STATUS_INDEX_NEW | STATUS_WT_MODIFIED),
        ChangeKind::Added
    );
}

#[test]
fn is_deleted_only_for_deleted() {
    assert!(ChangeKind::Deleted.is_deleted());
    assert!(!ChangeKind::Added.is_deleted());
    assert!(!ChangeKind::Modified.is_deleted());
    assert!(!ChangeKind::Renamed.is_deleted());
    assert!(!ChangeKind::Unmodified.is_deleted());
}

#[test]
fn changed_file_new_keeps_its_fields() {
    let file = ChangedFile::new("src/a.rs".to_string(), ChangeKind::Modified);
    assert_eq!(file.path, "src/a.rs");
    assert_eq!(file.kind, ChangeKind::Modified);
}
