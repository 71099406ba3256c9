use git_helper::conditions::{
    check_metadata_flags, check_path_flags, needs_metadata, parse_condition_flags,
    plan_condition_checks, ConditionError, ConditionStep, FileMeta, PathFacts, CREATE_DIR,
    MUST_BE_DIR, MUST_BE_FILE, MUST_BE_SIMILAR, MUST_DIFFER, MUST_EXIST, MUST_NOT_EXIST,
};

fn facts(exists: bool, is_file: bool, is_dir: bool) -> PathFacts {
    PathFacts { exists, is_file, is_dir }
}

fn meta(len: u64, is_file: bool) -> FileMeta {
    FileMeta { len, is_file, is_dir: !is_file }
}

#[test]
fn flag_letters() {
    assert_eq!(parse_condition_flags(&"-E".to_string()), MUST_EXIST);
    assert_eq!(parse_condition_flags(&"-EN!".to_string()), MUST_EXIST | MUST_NOT_EXIST | MUST_BE_SIMILAR);
    assert_eq!(parse_condition_flags(&"-FDC=".to_string()), MUST_BE_FILE | MUST_BE_DIR | CREATE_DIR | MUST_DIFFER);
    assert_eq!(parse_condition_flags(&"-EE".to_string()), 1);
    assert_eq!(parse_condition_flags(&"-xyz".to_string()), 0);
    assert_eq!(parse_condition_flags(&"-".to_string()), 0);
    assert_eq!(parse_condition_flags(&"".to_string()), 0);
    assert_eq!(parse_condition_flags(&"E".to_string()), 0);
}

#[test]
fn path_checks_in_order() {
    assert_eq!(check_path_flags(MUST_EXIST, facts(false, false, false)), Err(ConditionError::DoesNotExist));
    assert_eq!(check_path_flags(MUST_NOT_EXIST, facts(true, true, false)), Err(ConditionError::Exists));
    assert_eq!(check_path_flags(MUST_BE_FILE, facts(true, false, true)), Err(ConditionError::NotAFile));
    assert_eq!(check_path_flags(MUST_BE_DIR, facts(true, true, false)), Err(ConditionError::NotADirectory));
    assert_eq!(check_path_flags(MUST_EXIST | MUST_BE_FILE, facts(true, true, false)), Ok(false));
    assert_eq!(check_path_flags(CREATE_DIR, facts(false, false, false)), Ok(true));
    assert_eq!(check_path_flags(CREATE_DIR, facts(true, false, true)), Ok(false));
    assert_eq!(check_path_flags(0, facts(false, false, false)), Ok(false));
}

#[test]
fn exist_and_absent_always_fail() {
    let flags = parse_condition_flags(&"-EN".to_string());
    for e in [false, true] {
        assert!(check_path_flags(flags, facts(e, e, false)).is_err());
    }
}

#[test]
fn metadata_needed_only_for_similarity() {
    assert!(needs_metadata(MUST_BE_SIMILAR));
    assert!(needs_metadata(MUST_DIFFER | MUST_EXIST));
    assert!(!needs_metadata(MUST_EXIST | CREATE_DIR));
}

#[test]
fn similarity_against_the_first_path() {
    let mut stored = None;
    assert_eq!(check_metadata_flags(MUST_BE_SIMILAR, meta(10, true), &mut stored), Ok(()));
    assert_eq!(stored, Some(meta(10, true)));
    assert_eq!(check_metadata_flags(MUST_BE_SIMILAR, meta(10, true), &mut stored), Ok(()));
    assert_eq!(check_metadata_flags(MUST_BE_SIMILAR, meta(11, true), &mut stored), Err(ConditionError::NotSimilar));
    assert_eq!(check_metadata_flags(MUST_BE_SIMILAR, meta(10, false), &mut stored), Err(ConditionError::NotSimilar));
    assert_eq!(check_metadata_flags(MUST_DIFFER, meta(10, true), &mut stored), Err(ConditionError::Similar));
    assert_eq!(check_metadata_flags(MUST_DIFFER, meta(3, true), &mut stored), Ok(()));
    assert_eq!(stored, Some(meta(10, true)));
}

#[test]
fn both_similarity_flags_on_a_fresh_start_fail() {
    let mut stored = None;
    assert_eq!(
        check_metadata_flags(MUST_BE_SIMILAR | MUST_DIFFER, meta(4, true), &mut stored),
        Err(ConditionError::Similar)
    );
    assert_eq!(stored, Some(meta(4, true)));
}

#[test]
fn messages() {
    assert_eq!(ConditionError::DoesNotExist.message("x"), "IF dependency not satisfied: x does not Exist!!");
    assert_eq!(ConditionError::Exists.message("x"), "IF dependency not satisfied: x Exists!!");
    assert_eq!(ConditionError::NotAFile.message("d"), "IF dependency not satisfied: d is not a File!!");
    assert_eq!(ConditionError::NotADirectory.message("f"), "IF dependency not satisfied: f is not a Directory!!");
    assert_eq!(ConditionError::NotSimilar.message("f"), "IF dependency not satisfied: Files are not Similar!!");
    assert_eq!(ConditionError::Similar.message("f"), "IF dependency not satisfied: Files are Similar!!");
}

#[test]
fn plan_of_conditions() {
    let items: Vec<String> = ["a", "-E", "b", "c", "-x", "d", "-F", "-D", "e"]
        .iter()
        .map(|s| s.to_string())
        .collect();
    let plan = plan_condition_checks(&items);
    assert_eq!(
        plan,
        vec![
            ConditionStep::Reset,
            ConditionStep::Check { flags: MUST_EXIST, param: 2 },
            ConditionStep::Check { flags: MUST_EXIST, param: 3 },
            ConditionStep::Check { flags: MUST_EXIST, param: 4 },
            ConditionStep::Reset,
            ConditionStep::Reset,
            ConditionStep::Check { flags: MUST_BE_FILE, param: 7 },
            ConditionStep::Reset,
            ConditionStep::Check { flags: MUST_BE_DIR, param: 8 },
        ]
    );
}
