use sst::attach::fmt_attachment_size;

fn reference(bytes: u64) -> String {
    if bytes < 1_024 {
        format!("{} B", bytes)
    } else if bytes < 1_024 * 1_024 {
        format!("{:.0} KB", bytes as f64 / 1_024.0)
    } else if bytes < 1_024 * 1_024 * 1_024 {
        format!("{:.1} MB", bytes as f64 / (1_024.0 * 1_024.0))
    } else {
        format!("{:.1} GB", bytes as f64 / (1_024.0 * 1_024.0 * 1_024.0))
    }
}

#[test]
fn sizes_agree_with_floating_point_formatting() {
    for bytes in 0..200_000u64 {
        assert_eq!(fmt_attachment_size(bytes), reference(bytes));
    }
    let mut b: u64 = 1 << 20;
    while b < (1 << 31) {
        assert_eq!(fmt_attachment_size(b), reference(b), "{}", b);
        b += 13_107;
    }
    let mut m: u64 = 1;
    while m < 1 << 34 {
        for d in 0..5u64 {
            let tie = m * (1 << 28) + d - 2;
            if tie < (1 << 62) {
                assert_eq!(fmt_attachment_size(tie), reference(tie), "{}", tie);
                let hi = tie * 4 + 1000;
                assert_eq!(fmt_attachment_size(hi), reference(hi), "{}", hi);
            }
        }
        m = m * 3 + 2;
    }
    assert_eq!(fmt_attachment_size(u64::MAX), reference(u64::MAX));
    for k in 0..2000u64 {
        let v = (1u64 << 63) + (2 * k + 1) * (1 << 28) + 1023;
        assert_eq!(fmt_attachment_size(v), reference(v), "{}", v);
    }
}
