use opengrid_web_components::grouped_run::{run_grouped, Next, Reply, RunFacts, Stage};
use opengrid_web_components::grouping::{page_of_fetches, Key};

fn facts() -> RunFacts {
    RunFacts { need_groups: true, grouped: true, second_level: true, missing: 2, fetches: 2, typed: true }
}

fn ok() -> Reply {
    Reply::Answered { groupable: true, unreadable: None }
}

#[test]
fn a_fresh_run_asks_everything_in_order() {
    let f = facts();
    let mut stage = Stage::Start;
    let mut asked = Vec::new();
    loop {
        match run_grouped(stage, ok(), false, &f) {
            Next::Ask(next) => {
                asked.push(next);
                stage = next;
            }
            Next::Settle => break,
            other => panic!("unexpected {other:?}"),
        }
    }
    assert_eq!(
        asked,
        vec![
            Stage::Probe,
            Stage::Groups,
            Stage::Total,
            Stage::Children(0),
            Stage::Children(1),
            Stage::Rows(0),
            Stage::Rows(1),
        ]
    );
}

#[test]
fn loaded_groups_go_straight_to_the_rows_or_the_schema() {
    let f = RunFacts { need_groups: false, second_level: false, fetches: 0, typed: false, ..facts() };
    assert_eq!(run_grouped(Stage::Start, ok(), false, &f), Next::Ask(Stage::Schema));
    assert_eq!(run_grouped(Stage::Schema, ok(), false, &f), Next::Settle);
    let typed = RunFacts { typed: true, ..f };
    assert_eq!(run_grouped(Stage::Start, ok(), false, &typed), Next::Settle);
}

#[test]
fn an_overtaken_run_stops_and_an_error_is_shown() {
    let f = facts();
    assert_eq!(run_grouped(Stage::Groups, ok(), true, &f), Next::Stop);
    assert_eq!(run_grouped(Stage::Rows(0), ok(), true, &f), Next::Stop);
    assert_eq!(
        run_grouped(Stage::Total, Reply::Refused("offline".to_owned()), false, &f),
        Next::Fail("offline".to_owned())
    );
    let gone = RunFacts { grouped: false, ..f };
    assert_eq!(run_grouped(Stage::Start, ok(), false, &gone), Next::Stop);
    assert_eq!(run_grouped(Stage::Total, ok(), false, &gone), Next::Stop);
}

#[test]
fn a_key_that_does_not_repeat_falls_back_to_ungrouped() {
    let f = facts();
    assert_eq!(
        run_grouped(Stage::Groups, Reply::Answered { groupable: false, unreadable: None }, false, &f),
        Next::Ungroup
    );
    assert_eq!(
        run_grouped(
            Stage::Groups,
            Reply::Answered { groupable: true, unreadable: Some("no count".to_owned()) },
            false,
            &f
        ),
        Next::Fail("no count".to_owned())
    );
}

#[test]
fn the_page_takes_each_fetch_at_its_position() {
    let t = |s: &str| Key::Text(s.to_owned());
    // Window from position 10, 4 rows; one fetch at 11 of two rows, one at
    // 13 of one row; position 10 is a group header and stays NULL.
    let rows = vec![
        (11, vec![vec![t("a"), t("b")], vec![Key::Int(1), Key::Int(2)]]),
        (13, vec![vec![t("c"), t("overflow")]]),
    ];
    let page = page_of_fetches(10, 100, 4, 2, &rows);
    assert_eq!(
        page,
        vec![
            vec![Key::Null, t("a"), t("b"), t("c")],
            vec![Key::Null, Key::Int(1), Key::Int(2), Key::Null],
        ]
    );
    // Near the end the page is shorter than the pool.
    let short = page_of_fetches(98, 100, 4, 1, &[]);
    assert_eq!(short, vec![vec![Key::Null, Key::Null]]);
}
