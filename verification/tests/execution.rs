use dbctx::execution::ExecutionError;
use dbctx::database::DatabaseError;
use dbctx::execution::validate_read_only;
use dbctx::execution::{
    format_sqlserver_date, format_sqlserver_datetime, format_sqlserver_datetime2,
    format_sqlserver_datetimeoffset, format_sqlserver_smalldatetime, format_sqlserver_time,
};
fn assert_allowed(sql: &str) {
    validate_read_only(sql).expect("expected statement to be allowed");
}

fn assert_rejected(sql: &str, expected_keyword: &str) {
    let err = validate_read_only(sql).expect_err("expected statement to be rejected");
    let message = err.to_string();
    assert!(
        message.contains(expected_keyword),
        "{message:?} did not contain {expected_keyword:?}"
    );
}

#[test]
fn select_is_allowed() {
    assert_allowed("SELECT 1");
}

#[test]
fn with_cte_is_allowed() {
    assert_allowed("WITH cte AS (SELECT 1) SELECT * FROM cte");
}

#[test]
fn leading_and_trailing_noise_is_ignored() {
    assert_allowed("/* comment */ -- another\nSELECT 1");
}

#[test]
fn mutating_keywords_inside_string_literals_are_ignored() {
    assert_allowed("SELECT * FROM t WHERE name = 'delete'");
}

#[test]
fn semicolons_inside_string_literals_are_ignored() {
    assert_allowed("SELECT * FROM t WHERE name = 'a;b'");
}

#[test]
fn mutating_keywords_inside_quoted_identifiers_are_ignored() {
    assert_allowed("SELECT * FROM `update`");
    assert_allowed("SELECT * FROM [delete]");
    assert_allowed("SELECT * FROM \"drop\"");
}

#[test]
fn insert_is_rejected() {
    assert_rejected("INSERT INTO t VALUES (1)", "INSERT");
}

#[test]
fn update_is_rejected() {
    assert_rejected("UPDATE t SET x = 1", "UPDATE");
}

#[test]
fn delete_is_rejected() {
    assert_rejected("DELETE FROM t", "DELETE");
}

#[test]
fn drop_is_rejected() {
    assert_rejected("DROP TABLE t", "DROP");
}

#[test]
fn alter_is_rejected() {
    assert_rejected("ALTER TABLE t ADD c INT", "ALTER");
}

#[test]
fn create_is_rejected() {
    assert_rejected("CREATE TABLE t (id INT)", "CREATE");
}

#[test]
fn truncate_is_rejected() {
    assert_rejected("TRUNCATE TABLE t", "TRUNCATE");
}

#[test]
fn merge_is_rejected() {
    assert_rejected(
        "MERGE t USING s ON t.id = s.id WHEN MATCHED THEN UPDATE SET x = 1",
        "MERGE",
    );
}

#[test]
fn multiple_statements_are_rejected() {
    assert_rejected("SELECT 1; SELECT 2", "single");
    assert_rejected("SELECT 1; DROP TABLE t", "single");
}

#[test]
fn mutating_words_hidden_in_comments_are_caught() {
    assert_rejected("SELECT 1\n/* comment */\nDROP TABLE t", "DROP");
}

#[test]
fn non_select_statements_are_rejected() {
    assert_rejected("SHOW TABLES", "SHOW");
    assert_rejected("EXEC sp_help", "EXEC");
}

#[test]
fn empty_statement_is_rejected() {
    assert_rejected("", "empty statement");
    assert_rejected("   ", "empty statement");
}

#[test]
fn doubled_quotes_stay_inside_a_string_literal() {
    assert_allowed("SELECT 'it''s; DROP' AS x");
}

#[test]
fn an_unterminated_block_comment_hides_the_rest() {
    assert_allowed("SELECT 1 /* DROP TABLE t");
}

#[test]
fn a_trailing_semicolon_is_a_single_statement() {
    assert_allowed("SELECT 1; -- done\n");
}

#[test]
fn keywords_are_matched_whole_and_in_any_case() {
    assert_allowed("SELECT updated_at, created FROM t");
    assert_rejected("select 1 from t where x in (delete)", "DELETE");
    assert_rejected("with x as (select 1) insert into t select * from x", "INSERT");
}

#[test]
fn refusals_have_their_exit_code() {
    let refused = validate_read_only("DROP TABLE t").unwrap_err();
    assert_eq!(refused.exit_code(), 8);
    assert_eq!(ExecutionError::MultipleStatements.exit_code(), 8);
    assert_eq!(ExecutionError::Timeout(30).exit_code(), 7);
    assert_eq!(
        ExecutionError::Timeout(30).to_string(),
        "statement execution timed out after 30 seconds"
    );
    let lost = ExecutionError::Database(DatabaseError::Connection("refused".to_string()));
    assert_eq!(lost.exit_code(), 2);
    assert!(lost.to_string().starts_with("could not execute statement: could not connect to the database: refused"));
    assert_eq!(
        ExecutionError::Database(DatabaseError::Catalog("x".to_string())).exit_code(),
        7
    );
    assert_eq!(ExecutionError::Serialization("x".to_string()).exit_code(), 1);
}

#[test]
fn mysql_dates_and_times_are_written_zero_padded() {
    assert_eq!(
        dbctx::execution::format_mysql_datetime(2026, 1, 2, 3, 4, 5, 60),
        "2026-01-02 03:04:05.000060"
    );
    assert_eq!(
        dbctx::execution::format_mysql_datetime(7, 12, 31, 23, 59, 59, 999999),
        "0007-12-31 23:59:59.999999"
    );
    assert_eq!(dbctx::execution::format_mysql_time(true, 3, 1, 2, 3, 4), "-3:01:02:03.000004");
    assert_eq!(dbctx::execution::format_mysql_time(false, 0, 12, 0, 0, 0), "+0:12:00:00.000000");
}

#[test]
fn sqlserver_offsets_and_time_scales_are_converted() {
    assert_eq!(dbctx::execution::offset_suffix(330), "+05:30");
    assert_eq!(dbctx::execution::offset_suffix(-480), "-08:00");
    assert_eq!(dbctx::execution::offset_suffix(0), "+00:00");
    assert_eq!(dbctx::execution::time_nanoseconds(123, 7), 12_300);
    assert_eq!(dbctx::execution::time_nanoseconds(5, 0), 5_000_000_000);
    assert_eq!(dbctx::execution::time_nanoseconds(42, 9), 42);
}

#[test]
fn sql_server_dates_count_days_from_the_first_of_january_of_year_one() {
    assert_eq!(format_sqlserver_date(1), "0001-01-01");
    assert_eq!(format_sqlserver_date(738_886), "2024-01-01");
}

#[test]
fn sql_server_datetimes_count_days_from_1900_and_three_hundredths_of_seconds() {
    assert_eq!(format_sqlserver_datetime(0, 300 * 3661), "1900-01-01 1:01:01.0");
    assert_eq!(format_sqlserver_datetime(45_000, 299), "2023-03-17 0:00:00.0");
}

#[test]
fn sql_server_smalldatetimes_count_minutes() {
    assert_eq!(format_sqlserver_smalldatetime(1, 90), "1900-01-02 1:30:00.0");
}

#[test]
fn a_time_past_midnight_wraps_around_the_day() {
    assert_eq!(format_sqlserver_smalldatetime(0, 1_500), "1900-01-01 1:00:00.0");
    assert_eq!(format_sqlserver_time(90_000, 0), "1:00:00.0");
}

#[test]
fn sql_server_times_keep_their_fraction() {
    assert_eq!(format_sqlserver_time(123_456_789, 7), "0:00:12.3456789");
    assert_eq!(format_sqlserver_time(45_296, 0), "12:34:56.0");
}

#[test]
fn sql_server_datetime2_and_datetimeoffset_join_date_time_and_offset() {
    assert_eq!(format_sqlserver_datetime2(738_886, 0, 7), "2024-01-01 0:00:00.0");
    assert_eq!(
        format_sqlserver_datetimeoffset(738_886, 36_000_000_000, 7, -330),
        "2024-01-01 1:00:00.0-05:30"
    );
}

#[test]
fn whitespace_around_a_statement_changes_nothing() {
    assert_allowed("  \n\tSELECT 1 \r\n ");
    assert!(validate_read_only(" \t DELETE FROM t \n").unwrap_err().to_string()
        == validate_read_only("DELETE FROM t").unwrap_err().to_string());
    assert!(validate_read_only("\n SELECT 1; SELECT 2 \n").unwrap_err().to_string()
        == validate_read_only("SELECT 1; SELECT 2").unwrap_err().to_string());
}
