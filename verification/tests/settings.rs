use rtiow::settings::{workers_for, RenderSettings, SettingsError};
use rtiow::trace::Step;
use rtiow::Boxable;

#[test]
fn sound_settings_are_kept_as_given() {
    let settings = RenderSettings::new(1200, 800, 20, 50, 8).unwrap();
    assert_eq!(settings.width(), 1200);
    assert_eq!(settings.height(), 800);
    assert_eq!(settings.samples_per_pixel(), 20);
    assert_eq!(settings.max_depth(), 50);
    assert_eq!(settings.workers(), 8);
}

#[test]
fn an_image_without_columns_is_refused() {
    assert_eq!(RenderSettings::new(0, 800, 20, 50, 8).unwrap_err(), SettingsError::NoWidth);
    assert_eq!(RenderSettings::new(0, 0, 0, 0, 0).unwrap_err(), SettingsError::NoWidth);
}

#[test]
fn an_image_without_rows_is_refused() {
    assert_eq!(RenderSettings::new(1200, 0, 20, 50, 8).unwrap_err(), SettingsError::NoHeight);
    assert_eq!(RenderSettings::new(1200, 0, 0, 50, 0).unwrap_err(), SettingsError::NoHeight);
}

#[test]
fn an_image_too_large_for_a_canvas_is_refused() {
    assert_eq!(RenderSettings::new(0x1_0000, 800, 20, 50, 8).unwrap_err(), SettingsError::TooWide);
    assert_eq!(RenderSettings::new(1200, 0x1_0000, 20, 50, 8).unwrap_err(), SettingsError::TooHigh);
    assert_eq!(RenderSettings::new(0x1_0000, 0, 20, 50, 8).unwrap_err(), SettingsError::TooWide);
    assert!(RenderSettings::new(0xFFFF, 0xFFFF, 1, 0, 1).is_ok());
}

#[test]
fn a_render_without_samples_is_refused() {
    assert_eq!(RenderSettings::new(1200, 800, 0, 50, 8).unwrap_err(), SettingsError::NoSamples);
    assert_eq!(RenderSettings::new(1200, 800, 0, 50, 0).unwrap_err(), SettingsError::NoSamples);
}

#[test]
fn a_render_without_workers_is_refused() {
    assert_eq!(RenderSettings::new(1200, 800, 20, 50, 0).unwrap_err(), SettingsError::NoWorkers);
}

#[test]
fn a_depth_of_zero_is_accepted_and_gives_black_paths() {
    let settings = RenderSettings::new(2, 2, 1, 0, 1).unwrap();
    let mut path = settings.path();
    assert!(path.is_spent());
    assert_eq!(path.advance(rtiow::trace::Encounter::Miss), Step::Black);
}

#[test]
fn the_pool_is_as_large_as_the_report() {
    assert_eq!(workers_for(0), 0);
    assert_eq!(workers_for(1), 1);
    assert_eq!(workers_for(64), 64);
    assert_eq!(workers_for(0xFFFF_FFFF), 0xFFFF_FFFF);
}

#[test]
fn the_machine_sizes_the_pool() {
    match RenderSettings::for_machine(6, 4, 1, 1) {
        Ok(settings) => {
            assert!(settings.workers() >= 1);
            assert_eq!(settings.width(), 6);
            assert_eq!(settings.height(), 4);
            assert_eq!(settings.samples_per_pixel(), 1);
            assert_eq!(settings.max_depth(), 1);
        }
        Err(e) => assert_eq!(e, SettingsError::NoWorkers),
    }
    assert_eq!(RenderSettings::for_machine(0, 4, 1, 1).unwrap_err(), SettingsError::NoWidth);
    assert_eq!(RenderSettings::for_machine(6, 4, 0, 1).unwrap_err(), SettingsError::NoSamples);
}

#[test]
fn the_settings_make_the_parts_of_a_render() {
    let settings = RenderSettings::new(3, 5, 1, 7, 2).unwrap();
    let canvas = settings.canvas();
    assert_eq!((canvas.width(), canvas.height()), (3, 5));
    assert_eq!(canvas.get_pixel(2, 4), (0, 0, 0));
    assert_eq!(settings.rows(0), vec![4, 2, 0]);
    assert_eq!(settings.rows(1), vec![3, 1]);
    assert_eq!(settings.rows(2), Vec::<u32>::new());
    assert_eq!(settings.path().remaining(), 7);
    let progress = settings.progress();
    assert_eq!(progress.workers(), 2);
    assert!(progress.is_running());
}

#[derive(Debug, PartialEq)]
struct Marker(u32);

impl Boxable for Marker {}

#[test]
fn a_value_is_boxed_as_it_is() {
    let boxed: Box<Marker> = Marker(7).to_box();
    assert_eq!(*boxed, Marker(7));
}
