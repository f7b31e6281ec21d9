use ar_edit_core::ids::{format_id, read_id_number};

#[test]
fn format_id_pads_to_three_digits() {
    assert_eq!(format_id("poi-", 7), "poi-007");
    assert_eq!(format_id("mark-", 12), "mark-012");
    assert_eq!(format_id("src-", 1234), "src-1234");
    assert_eq!(format_id("shot-", 0), "shot-000");
}

#[test]
fn read_id_number_reads_back_what_format_id_wrote() {
    for n in [0u32, 1, 7, 99, 100, 4096, u32::MAX] {
        let id = format_id("poi-", n);
        assert_eq!(read_id_number(&id, "poi-"), Some(n));
    }
}

#[test]
fn read_id_number_rejects_other_ids() {
    assert_eq!(read_id_number("mark-003", "poi-"), None);
    assert_eq!(read_id_number("poi-", "poi-"), None);
    assert_eq!(read_id_number("poi-x1", "poi-"), None);
    assert_eq!(read_id_number("poi-4294967296", "poi-"), None);
    assert_eq!(read_id_number("poi-+5", "poi-"), Some(5));
}
