use lae_tui::art::{art_column_in_range, art_layout, art_place_sequence, art_upload_sequence};

#[test]
fn no_upload_without_data() {
    assert_eq!(art_upload_sequence(&[]), None);
}

#[test]
fn upload_sequence_carries_base64() {
    assert_eq!(
        art_upload_sequence(b"hello"),
        Some("\x1b_Ga=d,d=A\x1b\\\x1b_Ga=t,t=d,f=100,i=1,q=2;aGVsbG8=\x1b\\".to_string())
    );
}

fn payload(data: &[u8]) -> String {
    let s = art_upload_sequence(data).unwrap();
    let start = s.find(";").unwrap() + 1;
    s[start..s.len() - 2].to_string()
}

#[test]
fn base64_padding() {
    assert_eq!(payload(b"Man"), "TWFu");
    assert_eq!(payload(b"Ma"), "TWE=");
    assert_eq!(payload(b"M"), "TQ==");
    assert_eq!(payload(&[0xff, 0xfe, 0xfd, 0x00]), "//79AA==");
    assert_eq!(payload(&[0xfb, 0xff]), "+/8=");
}

#[test]
fn place_sequence_is_one_based() {
    assert_eq!(
        art_place_sequence(2, 45, 20, 10),
        "\x1b_Ga=d,d=p,i=1,p=1\x1b\\\x1b[3;46H\x1b_Ga=p,i=1,p=1,c=20,r=10,z=10\x1b\\"
    );
    assert_eq!(
        art_place_sequence(0, 0, 0, 0),
        "\x1b_Ga=d,d=p,i=1,p=1\x1b\\\x1b[1;1H\x1b_Ga=p,i=1,p=1,c=0,r=0,z=10\x1b\\"
    );
    assert_eq!(
        art_place_sequence(65534, 9, 65535, 100),
        "\x1b_Ga=d,d=p,i=1,p=1\x1b\\\x1b[65535;10H\x1b_Ga=p,i=1,p=1,c=65535,r=100,z=10\x1b\\"
    );
}

#[test]
fn layout_narrow_panel_limits_width() {
    assert_eq!(art_layout(40, 70, 30), (73, 24, 12));
}

#[test]
fn layout_wide_panel_centres() {
    assert_eq!(art_layout(20, 100, 50), (118, 14, 7));
}

#[test]
fn layout_tiny_screen() {
    assert_eq!(art_layout(4, 10, 5), (13, 0, 0));
}

#[test]
fn art_column_range_check() {
    assert!(art_column_in_range(40, 100, 60));
    assert!(art_column_in_range(40, 65532, 6));
    assert!(!art_column_in_range(40, 65533, 6));
    assert!(art_column_in_range(10, 65000, 1000) == (65000u32 + 3 + (994 - 4) / 2 <= 65535));
    let (x, _, _) = art_layout(40, 100, 60);
    assert_eq!(x as u32, 100 + 3 + (54 - 34) / 2);
}
