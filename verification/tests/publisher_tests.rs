use wallst::pixbuf::PixelBuffer;
use wallst::publisher::{cleanup_target, pack_buffer, pack_pixel, publish_model, RootWindowModel};

#[test]
fn packs_channels_into_low_three_bytes() {
    assert_eq!(pack_pixel(0x12, 0x34, 0x56), 0x0012_3456);
    assert_eq!(pack_pixel(0, 0, 0), 0);
    assert_eq!(pack_pixel(255, 255, 255), 0x00FF_FFFF);
}

#[test]
fn packs_buffer_row_major_dropping_alpha() {
    let buf = PixelBuffer {
        width: 2,
        height: 2,
        data: vec![
            1, 2, 3, 255, 4, 5, 6, 0,
            7, 8, 9, 17, 10, 11, 12, 200,
        ],
    };
    let words = pack_buffer(&buf);
    assert_eq!(words, vec![0x00010203, 0x00040506, 0x00070809, 0x000A0B0C]);
}

#[test]
fn cleanup_needs_all_three_atoms_equal() {
    assert_eq!(cleanup_target(Some(7), Some(7), Some(7)), Some(7));
    assert_eq!(cleanup_target(Some(7), Some(7), Some(8)), None);
    assert_eq!(cleanup_target(Some(7), None, Some(7)), None);
    assert_eq!(cleanup_target(None, None, None), None);
}

#[test]
fn publish_replaces_the_agreed_prior_pixmap() {
    // three legacy atoms point at pixmap 7, the only live one; publishing 9
    // must leave exactly one live pixmap: 9, referenced everywhere
    let mut m = RootWindowModel {
        live: vec![7],
        atom0: Some(7),
        atom1: Some(7),
        atom2: Some(7),
        background: Some(7),
    };
    publish_model(&mut m, 9);
    assert_eq!(m.live, vec![9]);
    assert_eq!(m.atom0, Some(9));
    assert_eq!(m.atom1, Some(9));
    assert_eq!(m.atom2, Some(9));
    assert_eq!(m.background, Some(9));
}

#[test]
fn publish_keeps_prior_when_atoms_disagree() {
    // with the atoms in disagreement nothing may be destroyed: the prior
    // pixmap stays live alongside the new one
    let mut m = RootWindowModel {
        live: vec![7],
        atom0: Some(7),
        atom1: Some(8),
        atom2: Some(7),
        background: Some(7),
    };
    publish_model(&mut m, 9);
    assert_eq!(m.live, vec![7, 9]);
    assert_eq!(m.atom0, Some(9));
    assert_eq!(m.background, Some(9));
}

#[test]
fn publish_onto_empty_server_creates_one_pixmap() {
    let mut m = RootWindowModel {
        live: Vec::new(),
        atom0: None,
        atom1: None,
        atom2: None,
        background: None,
    };
    publish_model(&mut m, 3);
    assert_eq!(m.live, vec![3]);
    assert_eq!(m.background, Some(3));
}
