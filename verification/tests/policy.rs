use tmc_langs_util::path::FilePath;
use tmc_langs_util::policy::{
    classify, AntStudentFilePolicy, Classification, MakeStudentFilePolicy, StudentFilePolicy,
};

#[test]
fn ant_policy_is_student_source_file() {
    let policy = AntStudentFilePolicy::new(FilePath::parse(""));
    assert!(policy.is_student_source_file(&FilePath::parse("src/file")));
    assert!(policy.is_student_source_file(&FilePath::parse("src/dir/file")));
}

#[test]
fn ant_policy_is_not_student_source_file() {
    let policy = AntStudentFilePolicy::new(FilePath::parse(""));
    assert!(!policy.is_student_source_file(&FilePath::parse("file")));
    assert!(!policy.is_student_source_file(&FilePath::parse("dir/src/file")));
    assert!(!policy.is_student_source_file(&FilePath::parse("srca/file")));
}

#[test]
fn policy_is_student_source_file() {
    let policy = MakeStudentFilePolicy::new(FilePath::parse(""));
    assert!(policy.is_student_source_file(&FilePath::parse("src")));
    assert!(policy.is_student_source_file(&FilePath::parse("src/file")));
    assert!(policy.is_student_source_file(&FilePath::parse("src/dir/file")));
}

#[test]
fn policy_is_not_student_source_file() {
    let policy = MakeStudentFilePolicy::new(FilePath::parse(""));
    assert!(!policy.is_student_source_file(&FilePath::parse("srcc")));
    assert!(!policy.is_student_source_file(&FilePath::parse("dir/src/file")));
}

#[test]
fn classification_compares_whole_components() {
    let policy = AntStudentFilePolicy::new(FilePath::parse("/exercises/one"));
    assert!(policy.is_student_source_file(&FilePath::parse("src//file")));
    assert!(policy.is_student_source_file(&FilePath::parse("src/")));
    assert!(!policy.is_student_source_file(&FilePath::parse("")));
    assert!(!policy.is_student_source_file(&FilePath::parse("/src/file")));
    assert!(!policy.is_student_source_file(&FilePath::parse("./src/file")));
    assert!(!policy.is_student_source_file(&FilePath::parse("sr")));
    assert!(!policy.is_student_source_file(&FilePath::parse("Src/file")));
}

#[test]
fn config_parent_path_is_kept() {
    let ant = AntStudentFilePolicy::new(FilePath::parse("/exercises/one"));
    assert!(ant.get_config_file_parent_path().same_as(&FilePath::parse("/exercises/one")));
    let make = MakeStudentFilePolicy::new(FilePath::parse("exercises/two"));
    assert!(make.get_config_file_parent_path().same_as(&FilePath::parse("exercises/two")));
}

#[test]
fn classify_pairs_path_and_owner() {
    let policy = MakeStudentFilePolicy::new(FilePath::parse(""));
    let mine = classify(&policy, FilePath::parse("src/main.c"));
    assert_eq!(mine.classification, Classification::StudentOwned);
    assert!(mine.path.same_as(&FilePath::parse("src/main.c")));
    let theirs = classify(&policy, FilePath::parse("test/check.c"));
    assert_eq!(theirs.classification, Classification::InstructorOwned);
}
