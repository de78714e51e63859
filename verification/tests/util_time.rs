use ytrs::util::format_time;
use ytrs::util::midi_to_vol;
use ytrs::util::video_url;
use ytrs::util::vol_to_midi;

#[test]
fn format_time_parts_appear_when_nonzero() {
    assert_eq!(format_time(0), "[00]");
    assert_eq!(format_time(9), "[09]");
    assert_eq!(format_time(59), "[59]");
    assert_eq!(format_time(61), "[01:01]");
    assert_eq!(format_time(600), "[10:00]");
    assert_eq!(format_time(3600), "[01:00]");
    assert_eq!(format_time(3661), "[01:01:01]");
    assert_eq!(format_time(7322), "[02:02:02]");
    assert_eq!(format_time(360000), "[100:00]");
}

#[test]
fn volume_scaling_to_controller() {
    assert_eq!(vol_to_midi(0), 0);
    assert_eq!(vol_to_midi(65), 63);
    assert_eq!(vol_to_midi(130), 127);
}

#[test]
fn volume_scaling_from_controller() {
    assert_eq!(midi_to_vol(0), 0);
    assert_eq!(midi_to_vol(64), 65);
    assert_eq!(midi_to_vol(127), 130);
    assert_eq!(midi_to_vol(255), 130);
}

#[test]
fn watch_url_built_from_id() {
    assert_eq!(video_url("abc123"), "https://www.youtube.com/watch?v=abc123");
}
