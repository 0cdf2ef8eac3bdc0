use canon_mapper::catalog::Media;
use canon_mapper::days::{date_text, day_groups, day_number, day_ops, DayGroup};
use canon_mapper::error::{Errors, OpValidationResult};
use canon_mapper::mapper::{validate, MapOp, MapOpType, Mapper, OutputDir};
use canon_mapper::prompt::{parse_u32, InputError, OpPrompt, Prompt};

fn op(name: &str, start: u32, end: u32) -> MapOp {
    MapOp::new(MapOpType::Copy, name.to_string(), start, end)
}

fn media(id: u32, created_at: i64) -> Media {
    Media { id, filename: format!("MVI_{:04}.MOV", id), created_at }
}

fn mapper_with(media: Vec<Media>) -> Mapper {
    let mut m = Mapper::try_new("/card".to_string(), "/out".to_string(), true, OutputDir::Listed(vec![])).unwrap();
    m.media = media;
    m
}

#[test]
fn validate_empty() {
    assert!(matches!(validate(&vec![]), OpValidationResult::Empty));
}

#[test]
fn validate_single() {
    assert!(matches!(validate(&vec![op("a", 0, 10)]), OpValidationResult::Valid));
    assert!(matches!(validate(&vec![op("a", 7, 3)]), OpValidationResult::Valid));
}

#[test]
fn validate_equal_starts_not_reported() {
    let ops = vec![op("a", 5, 10), op("b", 5, 8)];
    assert!(matches!(validate(&ops), OpValidationResult::Valid));
}

#[test]
fn validate_touching_ranges() {
    let ops = vec![op("a", 0, 10), op("b", 10, 20)];
    assert!(matches!(validate(&ops), OpValidationResult::Valid));
}

#[test]
fn validate_overlapping_ranges() {
    let ops = vec![op("a", 0, 10), op("b", 5, 15)];
    match validate(&ops) {
        OpValidationResult::OverlappingRange(x, y) => {
            assert!(x == op("a", 0, 10));
            assert!(y == op("b", 5, 15));
        }
        other => panic!("unexpected {:?}", other),
    }
}

#[test]
fn validate_reports_first_pair() {
    let ops = vec![op("a", 0, 5), op("b", 20, 30), op("c", 25, 40), op("d", 2, 4)];
    match validate(&ops) {
        OpValidationResult::OverlappingRange(x, y) => {
            assert_eq!(x.name, "a");
            assert_eq!(y.name, "d");
        }
        other => panic!("unexpected {:?}", other),
    }
}

#[test]
fn validate_skips_identical_operations() {
    let ops = vec![op("a", 0, 10), op("a", 0, 10)];
    assert!(matches!(validate(&ops), OpValidationResult::Valid));
}

#[test]
fn day_number_is_floor() {
    assert_eq!(day_number(0), 0);
    assert_eq!(day_number(86399), 0);
    assert_eq!(day_number(86400), 1);
    assert_eq!(day_number(-1), -1);
    assert_eq!(day_number(-86400), -1);
    assert_eq!(day_number(-86401), -2);
    assert_eq!(day_number(1651363200), 19113);
}

#[test]
fn date_text_of_days() {
    assert_eq!(date_text(0), "1970-01-01UTC");
    assert_eq!(date_text(19113), "2022-05-01UTC");
    assert_eq!(date_text(-1), "1969-12-31UTC");
}

#[test]
fn day_groups_of_two_dates() {
    let day1 = 1651363200; // 2022-05-01
    let day2 = day1 + 86400;
    let v = vec![
        media(3, day1 + 100),
        media(4, day2 + 5),
        media(5, day1 + 80000),
        media(6, day2 + 70000),
        media(7, day2 + 1),
    ];
    let g = day_groups(&v);
    assert_eq!(
        g,
        vec![
            DayGroup { day: 19113, start: 3, end: 6 },
            DayGroup { day: 19114, start: 4, end: 8 },
        ]
    );
}

#[test]
fn day_groups_are_ordered_by_day() {
    let v = vec![media(1, 86400 * 10), media(2, 0), media(3, 86400 * 5), media(4, -5)];
    let g = day_groups(&v);
    let days: Vec<i64> = g.iter().map(|x| x.day).collect();
    assert_eq!(days, vec![-1, 0, 5, 10]);
    assert_eq!(g[0], DayGroup { day: -1, start: 4, end: 5 });
}

#[test]
fn day_ops_name_after_label_and_date() {
    let g = vec![DayGroup { day: 19113, start: 3, end: 6 }];
    let ops = day_ops(&g, &vec!["beach".to_string()]);
    assert_eq!(ops.len(), 1);
    assert!(ops[0] == op("beach_2022-05-01UTC", 3, 6));
}

#[test]
fn group_by_day_adds_and_validates() {
    let day1 = 1651363200;
    let mut m = mapper_with(vec![media(1, day1), media(2, day1 + 10), media(3, day1 + 86400)]);
    assert!(m.dates_known());
    let groups = m.day_groups();
    assert_eq!(groups.len(), 2);
    let r = m.group_by_day(&vec!["a".to_string(), "b".to_string()]);
    assert!(r.is_ok());
    assert_eq!(m.ops.len(), 2);
    assert!(m.ops[0] == op("a_2022-05-01UTC", 1, 3));
    assert!(m.ops[1] == op("b_2022-05-02UTC", 3, 4));
}

#[test]
fn group_by_day_reports_overlap() {
    let day1 = 1651363200;
    let mut m = mapper_with(vec![media(1, day1), media(2, day1 + 86400), media(3, day1)]);
    let r = m.group_by_day(&vec!["a".to_string(), "b".to_string()]);
    assert!(matches!(r, Err(Errors::ValidationError(OpValidationResult::OverlappingRange(_, _)))));
}

#[test]
fn execute_copies_ids_in_range() {
    let mut m = mapper_with(vec![media(1, 0), media(2, 0), media(3, 0), media(4, 0)]);
    assert!(m.prompt_for_ops(vec![op("A", 1, 3)]).is_ok());
    let plan = m.execute();
    assert_eq!(plan.len(), 1);
    assert_eq!(plan[0].dir, "/out/A");
    let copies: Vec<(&str, &str)> = plan[0].copies.iter().map(|c| (c.from.as_str(), c.to.as_str())).collect();
    assert_eq!(
        copies,
        vec![
            ("/card/DCIM/100CANON/MVI_0001.MOV", "/out/A/MVI_0001.MOV"),
            ("/card/DCIM/100CANON/MVI_0002.MOV", "/out/A/MVI_0002.MOV"),
        ]
    );
}

#[test]
fn execute_plans_each_operation_in_order() {
    let mut m = mapper_with(vec![media(1, 0), media(5, 0), media(9, 0)]);
    assert!(m.prompt_for_ops(vec![op("late", 5, 100), op("early", 0, 5), op("none", 200, 300)]).is_ok());
    let plan = m.execute();
    let dirs: Vec<&str> = plan.iter().map(|g| g.dir.as_str()).collect();
    assert_eq!(dirs, vec!["/out/late", "/out/early", "/out/none"]);
    assert_eq!(plan[0].copies.len(), 2);
    assert_eq!(plan[1].copies.len(), 1);
    assert_eq!(plan[2].copies.len(), 0);
}

#[test]
fn parse_u32_reads_decimal() {
    assert_eq!(parse_u32("0"), Some(0));
    assert_eq!(parse_u32("+12"), Some(12));
    assert_eq!(parse_u32("007"), Some(7));
    assert_eq!(parse_u32("4294967295"), Some(u32::MAX));
    assert_eq!(parse_u32("4294967296"), None);
    assert_eq!(parse_u32("99999999999"), None);
    assert_eq!(parse_u32(""), None);
    assert_eq!(parse_u32("+"), None);
    assert_eq!(parse_u32("-1"), None);
    assert_eq!(parse_u32(" 1"), None);
    assert_eq!(parse_u32("1x"), None);
}

#[test]
fn kind_names() {
    assert_eq!(MapOpType::names(), vec!["copy"]);
    assert_eq!(MapOpType::from_name("copy"), Some(MapOpType::Copy));
    assert_eq!(MapOpType::from_name("Copy"), None);
    assert_eq!(MapOpType::from_name("move"), None);
    assert_eq!(MapOpType::default(), MapOpType::Copy);
}

#[test]
fn prompt_session_collects_ops() {
    let mut s = OpPrompt::new();
    assert_eq!(s.next, Some(Prompt::GroupName));
    for line in ["first", "1", "3", "second", "3", "9"] {
        assert!(s.answer(line.to_string()).is_ok());
    }
    assert_eq!(s.next, Some(Prompt::GroupName));
    assert!(!s.is_done());
    assert!(s.answer(String::new()).is_ok());
    assert!(s.is_done());
    let ops = s.into_ops();
    assert_eq!(ops.len(), 2);
    assert!(ops[0] == op("first", 1, 3));
    assert!(ops[1] == op("second", 3, 9));
}

#[test]
fn prompt_session_refuses_bad_number() {
    let mut s = OpPrompt::new();
    assert!(s.answer("g".to_string()).is_ok());
    assert_eq!(s.next, Some(Prompt::Start));
    match s.answer("ten".to_string()) {
        Err(InputError::NotANumber(l)) => assert_eq!(l, "ten"),
        other => panic!("unexpected {:?}", other),
    }
    assert_eq!(s.next, Some(Prompt::Start));
}
