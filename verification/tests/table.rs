use diskstats::{get_iostats, Fault, IoStats, StatsError};

fn device(name: &str, bytes_read: i64, bytes_wrtn: i64) -> IoStats {
    IoStats { device_name: name.to_string(), bytes_read, bytes_wrtn }
}

fn lines(text: &[&str]) -> String {
    text.concat()
}

#[test]
fn an_empty_table_has_no_devices() {
    assert_eq!(get_iostats(""), Ok(Vec::new()));
}

#[test]
fn one_line_one_device() {
    let table = lines(&["   8       0 sda 100 0 1600 50 0 0 0 0 0 20 50\n"]);
    assert_eq!(get_iostats(&table), Ok(vec![device("sda", 819200, 0)]));
}

#[test]
fn devices_come_in_the_order_of_their_lines() {
    let table = lines(&[
        "   8       0 sda 100 0 1600 50 0 0 8 0 0 20 50\n",
        "   8       1 sda1 10 0 160 5 0 0 4 0 0 2 5\n",
        "   8      16 sdb 1 0 2 0 0 0 3 0 0 0 0\n",
        "   7       0 loop0 0 0 0 0 0 0 0 0 0 0 0\n",
    ]);
    assert_eq!(
        get_iostats(&table),
        Ok(vec![
            device("sda", 819200, 4096),
            device("sda1", 81920, 2048),
            device("sdb", 1024, 1536),
            device("loop0", 0, 0),
        ])
    );
}

#[test]
fn as_many_devices_as_well_formed_lines() {
    let mut table = String::new();
    let mut expected: Vec<IoStats> = Vec::new();
    let mut k: i64 = 0;
    while k < 200 {
        table.push_str(&format!(" 8 {} dev{} 1 1 {} 1 1 1 {} 1 1 1 1\n", k, k, k, 2 * k));
        expected.push(device(&format!("dev{}", k), k * 512, 2 * k * 512));
        k += 1;
    }
    let all = get_iostats(&table).unwrap();
    assert_eq!(all.len(), 200);
    assert_eq!(all, expected);
}

#[test]
fn the_same_device_twice_is_reported_twice() {
    let table = lines(&[
        "8 0 sda 100 0 1 50 0 0 1 0 0 20 50\n",
        "8 0 sda 100 0 1 50 0 0 1 0 0 20 50",
    ]);
    assert_eq!(get_iostats(&table), Ok(vec![device("sda", 512, 512), device("sda", 512, 512)]));
}

#[test]
fn incomplete_lines_are_left_out() {
    let table = lines(&[
        "\n",
        "   8       0 sda 100 0 1600 50 0 0 8 0 0 20 50\n",
        "   8       1 sda1 10 0 160 5 0 0 4 0 0 2\n",
        "garbage\n",
        "   8      16 sdb 1 0 2 0 0 0 3 0 0 0 0\n",
        "\n",
    ]);
    assert_eq!(
        get_iostats(&table),
        Ok(vec![device("sda", 819200, 4096), device("sdb", 1024, 1536)])
    );
}

#[test]
fn a_table_of_incomplete_lines_has_no_devices() {
    let table = lines(&["\n", "a b c\n", "8 0 sda 100 0 x 50 0 0 y 0 0 20"]);
    assert_eq!(get_iostats(&table), Ok(Vec::new()));
}

#[test]
fn a_bad_line_fails_the_table() {
    let table = lines(&[
        "   8       0 sda 100 0 1600 50 0 0 8 0 0 20 50\n",
        "   8       1 sda1 10 0 many 5 0 0 4 0 0 2 5\n",
        "   8      16 sdb 1 0 2 0 0 0 3 0 0 0 0\n",
    ]);
    assert_eq!(get_iostats(&table), Err(StatsError { line: 1, fault: Fault::SectorsRead }));
}

#[test]
fn the_first_bad_line_is_reported() {
    let table = lines(&[
        "short\n",
        "   8       0 sda 100 0 1600 50 0 0 8 0 0 20 50\n",
        "   8       1 sda1 10 0 1 5 0 0 none 0 0 2 5\n",
        "   8      16 sdb 1 0 none 0 0 0 3 0 0 0 0\n",
    ]);
    assert_eq!(get_iostats(&table), Err(StatsError { line: 2, fault: Fault::SectorsWritten }));
}

#[test]
fn a_bad_first_line_is_line_zero() {
    let table = lines(&["8 0 sda 100 0 1600 50 0 0 8.5 0 0 20 50"]);
    assert_eq!(get_iostats(&table), Err(StatsError { line: 0, fault: Fault::SectorsWritten }));
}

#[test]
fn a_name_with_a_nul_is_no_fault_in_the_full_table() {
    let table = lines(&["8 0 s\0da 100 0 1 50 0 0 1 0 0 20 50"]);
    assert_eq!(get_iostats(&table), Ok(vec![device("s\0da", 512, 512)]));
}

#[test]
fn a_table_of_blank_text_has_no_devices() {
    assert_eq!(get_iostats("\n"), Ok(Vec::new()));
    assert_eq!(get_iostats("  \n\n \t \n"), Ok(Vec::new()));
}

#[test]
fn a_line_feed_parts_two_devices() {
    let one = "8 0 sda 100 0 1 50 0 0 1 0 0 20 50";
    let two = "8 16 sdb 100 0 2 50 0 0 2 0 0 20 50";
    assert_eq!(
        get_iostats(&format!("{}\n{}", one, two)),
        Ok(vec![device("sda", 512, 512), device("sdb", 1024, 1024)])
    );
    assert_eq!(get_iostats(&format!("{} {}", one, two)), Ok(vec![device("sda", 512, 512)]));
}

#[test]
fn a_line_is_not_completed_by_the_next() {
    let table = "8 0 sda 100 0 1 50\n0 0 1 0 0 20 50\n";
    assert_eq!(get_iostats(table), Ok(Vec::new()));
}

#[test]
fn empty_lines_count_in_the_position_of_a_bad_line() {
    let table = "\n\n8 0 sda 100 0 bad 50 0 0 1 0 0 20 50\n";
    assert_eq!(get_iostats(table), Err(StatsError { line: 2, fault: Fault::SectorsRead }));
}
