use sst::path::{extension, file_name, parent};
use std::path::Path;

#[test]
fn paths_agree_with_std() {
    let alphabet = ['a', '.', '/'];
    let mut all: Vec<String> = vec![String::new()];
    let mut last = all.clone();
    for _ in 0..8 {
        let mut next: Vec<String> = Vec::new();
        for s in &last {
            for c in alphabet {
                let mut t = s.clone();
                t.push(c);
                next.push(t);
            }
        }
        all.extend(next.clone());
        last = next;
    }
    for s in &all {
        let p = Path::new(s.as_str());
        assert_eq!(file_name(s), p.file_name().map(|n| n.to_str().unwrap().to_string()), "{}", s);
        assert_eq!(parent(s), p.parent().map(|n| n.to_str().unwrap().to_string()), "{}", s);
        assert_eq!(extension(s), p.extension().map(|n| n.to_str().unwrap().to_string()), "{}", s);
    }
}
