use qk::tracking::{DirtyTrackSet, RwTrack};

#[test]
fn rw_track() {
    let mut value = 0;
    let mut tracking: DirtyTrackSet<u8, u8> = DirtyTrackSet::default();

    {
        let mut value = RwTrack {
            data: &mut value,
            tracking: tracking.track(0),
        };

        if *value.get(&mut tracking) == 0 {
            *value.get_mut(&mut tracking) = 1;
        }

        assert!(tracking.is_write(0));
    }

    tracking.reset_write();

    let mut value1 = 0;
    let mut value2 = 0;

    {
        let value1 = RwTrack {
            data: &mut value1,
            tracking: tracking.track(0),
        };
        let mut value2 = RwTrack {
            data: &mut value2,
            tracking: tracking.track(1),
        };

        if *value1.get(&mut tracking) == 0 {
            *value2.get_mut(&mut tracking) = 1;
        }

        assert!(!tracking.is_write(0));
        assert!(tracking.is_write(1));
    }
}

#[test]
fn read_marks_only_the_read_mask() {
    let mut value = 7;
    let mut tracking: DirtyTrackSet<u8, u8> = DirtyTrackSet::default();
    let wrapped = RwTrack { data: &mut value, tracking: tracking.track(3) };
    assert_eq!(*wrapped.get(&mut tracking), 7);
    assert!(tracking.is_read(3));
    assert!(!tracking.is_read(2));
    assert!(!tracking.is_write(3));
    assert_eq!(tracking.get_read(), 0b1000);
    assert_eq!(tracking.get_write(), 0);
    tracking.reset_read();
    assert!(!tracking.is_read(3));
}

#[test]
fn writes_to_one_slot_coalesce() {
    let mut value = 0;
    let mut tracking: DirtyTrackSet<u16, u64> = DirtyTrackSet::default();
    let mut wrapped = RwTrack { data: &mut value, tracking: tracking.track(40) };
    *wrapped.get_mut(&mut tracking) = 1;
    *wrapped.get_mut(&mut tracking) = 2;
    *wrapped.get_mut(&mut tracking) = 3;
    assert_eq!(tracking.get_write(), 1u64 << 40);
    assert_eq!(value, 3);
}
