use nu_plugin_unzip::mtime::{first_extended_mod_time, resolve_mtime, DosStamp, ExtraStamp, ModTime};

fn stamp() -> DosStamp {
    DosStamp { year: 2024, month: 5, day: 6, hour: 7, minute: 8, second: 10 }
}

#[test]
fn extended_timestamp_wins_over_native() {
    assert_eq!(resolve_mtime(Some(42), Some(stamp())), ModTime::Unix { secs: 42 });
}

#[test]
fn native_stamp_is_the_fallback() {
    assert_eq!(resolve_mtime(None, Some(stamp())), ModTime::Civil { stamp: stamp() });
}

#[test]
fn missing_native_stamp_falls_back_to_default() {
    assert_eq!(
        resolve_mtime(None, None),
        ModTime::Civil {
            stamp: DosStamp { year: 1980, month: 1, day: 1, hour: 0, minute: 0, second: 0 },
        },
    );
}

#[test]
fn first_extended_field_is_picked() {
    let fields = vec![
        ExtraStamp::Other,
        ExtraStamp::ExtendedTs { mod_time: Some(42) },
        ExtraStamp::ExtendedTs { mod_time: Some(7) },
    ];
    assert_eq!(first_extended_mod_time(&fields), Some(42));
}

#[test]
fn first_extended_field_without_time_still_wins_the_search() {
    let fields = vec![
        ExtraStamp::ExtendedTs { mod_time: None },
        ExtraStamp::ExtendedTs { mod_time: Some(7) },
    ];
    assert_eq!(first_extended_mod_time(&fields), None);
}

#[test]
fn no_extended_field_means_none() {
    assert_eq!(first_extended_mod_time(&vec![ExtraStamp::Other]), None);
    assert_eq!(first_extended_mod_time(&vec![]), None);
}
