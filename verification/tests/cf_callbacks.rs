use taphle::core_foundation::cf_array::{array_retains_values, CFArrayCallBacks};
use taphle::core_foundation::cf_set::CFSetCallBacks;

fn words(ws: &[u32]) -> Vec<u8> {
    ws.iter().flat_map(|w| w.to_le_bytes()).collect()
}

#[test]
fn array_callbacks_are_read_little_endian() {
    let bytes = words(&[0, 0x1000, 0x2000, 0x3000, 0x4000]);
    let c = CFArrayCallBacks::read(&bytes, 0);
    assert_eq!(
        c,
        CFArrayCallBacks {
            version: 0,
            retain: 0x1000,
            release: 0x2000,
            copy_desc: 0x3000,
            equal: 0x4000
        }
    );
    assert!(array_retains_values(Some(&c)));
    let none = CFArrayCallBacks { retain: 0, ..c };
    assert!(!array_retains_values(Some(&none)));
    assert!(!array_retains_values(None));
}

#[test]
fn set_callbacks_are_read_at_an_offset() {
    let mut bytes = vec![0xAA; 4];
    bytes.extend(words(&[u32::MAX, 1, 2, 3, 4, 5]));
    let c = CFSetCallBacks::read(&bytes, 4);
    assert_eq!(c.version, -1);
    assert_eq!((c.retain, c.release, c.copy_desc, c.equal, c.hash), (1, 2, 3, 4, 5));
}
