use whale::cron::{
    choose_cron_string, is_cron_expression_registered, is_valid_cron_expression, rebuild_crontab,
    whale_cron_expression,
};

#[test]
fn standard_and_named_schedules_are_valid() {
    assert!(is_valid_cron_expression("0 */6 * * *"));
    assert!(is_valid_cron_expression("@hourly"));
    assert!(is_valid_cron_expression("@annually"));
    assert!(is_valid_cron_expression("@reboot"));
    assert!(is_valid_cron_expression("1 2 3 4 5"));
    assert!(is_valid_cron_expression("*/5 0 1,15 * 1-5"));
    assert!(is_valid_cron_expression("0 0 1 1 * 6 7"));
}

#[test]
fn interval_schedules_are_valid() {
    assert!(is_valid_cron_expression("@every 1h"));
    assert!(is_valid_cron_expression("@every 1h30m10s"));
    assert!(is_valid_cron_expression("@every 250ms"));
    assert!(is_valid_cron_expression("@every 10ns"));
}

#[test]
fn out_of_grammar_expressions_are_invalid() {
    assert!(!is_valid_cron_expression("not a cron"));
    assert!(!is_valid_cron_expression("99 99 99"));
    assert!(!is_valid_cron_expression(""));
    assert!(!is_valid_cron_expression("@every "));
    assert!(!is_valid_cron_expression("@every h"));
    assert!(!is_valid_cron_expression("@every 5q"));
    assert!(!is_valid_cron_expression("one two three four five"));
}

#[test]
fn blank_input_falls_back_to_the_default_schedule() {
    assert_eq!(choose_cron_string(String::new()), "0 */6 * * *");
    assert_eq!(choose_cron_string("@daily".to_string()), "@daily");
}

#[test]
fn registration_is_detected_by_token() {
    let crontab = "# backups\n0 3 * * * /usr/local/bin/backup\n0 */6 * * * /home/u/.whale/bin/whale pull\n";
    assert!(is_cron_expression_registered(crontab, "whale pull"));
    assert!(!is_cron_expression_registered(crontab, "whale etl"));
    assert!(!is_cron_expression_registered("", "whale pull"));
}

#[test]
fn registering_twice_leaves_exactly_one_matching_line() {
    let command = "/home/u/.whale/bin/whale pull";
    let current = "# keep this\n0 3 * * * /usr/local/bin/backup\n";
    let line1 = whale_cron_expression("0 */6 * * *", command);
    let c1 = rebuild_crontab(current, command, &line1);
    let line2 = whale_cron_expression("@hourly", command);
    let c2 = rebuild_crontab(&c1, command, &line2);

    let matching: Vec<&str> = c2.lines().filter(|l| l.contains(command)).collect();
    assert_eq!(matching, vec!["@hourly /home/u/.whale/bin/whale pull"]);
    assert!(is_cron_expression_registered(&c2, command));
    assert!(c2.contains("# keep this\n"));
    assert!(c2.contains("0 3 * * * /usr/local/bin/backup\n"));
    assert!(!c2.contains("0 */6 * * *"));
}

#[test]
fn rebuild_keeps_unrelated_lines_in_order() {
    let c = rebuild_crontab("a\nb\n", "whale", "1 2 3 4 5 whale pull");
    assert_eq!(c, "a\nb\n1 2 3 4 5 whale pull\n");
}
