use calendar_ql::widget::{covers_cell, Widget, WidgetDataTransfer, WidgetManagerState, WidgetSize};
use calendar_ql::widget::weather::{
    is_weather_code, parse_weather_code, weather_code_to_icon, WeatherIcon,
};
use std::collections::HashMap;

fn a_widget(size: WidgetSize) -> WidgetDataTransfer {
    WidgetDataTransfer { widget: Widget::Time, size, source_index: None }
}

fn sorted(mut cells: Vec<usize>) -> Vec<usize> {
    cells.sort();
    cells
}

fn roots(state: &WidgetManagerState) -> Vec<usize> {
    sorted(state.cells().keys().copied().collect())
}

#[test]
fn widget_sizes_span_rows_and_columns() {
    assert_eq!(WidgetSize::Small.row_span(), 1);
    assert_eq!(WidgetSize::Small.col_span(), 1);
    assert_eq!(WidgetSize::Medium.row_span(), 1);
    assert_eq!(WidgetSize::Medium.col_span(), 2);
    assert_eq!(WidgetSize::Large.row_span(), 2);
    assert_eq!(WidgetSize::Large.col_span(), 2);
}

#[test]
fn widget_size_classes() {
    assert_eq!(WidgetSize::Small.size_class(), "w-28 h-28");
    assert_eq!(WidgetSize::Medium.size_class(), "w-56 h-28");
    assert_eq!(WidgetSize::Large.size_class(), "w-56 h-56");
}

#[test]
fn widget_grid_classes() {
    assert_eq!(WidgetSize::Small.class(), "row-span-1 col-span-1");
    assert_eq!(WidgetSize::Medium.class(), "row-span-1 col-span-2");
    assert_eq!(WidgetSize::Large.class(), "row-span-2 col-span-2");
}

#[test]
fn widget_size_by_number() {
    assert_eq!(WidgetSize::from_index(0), WidgetSize::Small);
    assert_eq!(WidgetSize::from_index(1), WidgetSize::Medium);
    assert_eq!(WidgetSize::from_index(2), WidgetSize::Large);
}

#[test]
fn the_sizes_a_widget_comes_in() {
    assert_eq!(Widget::Time.sizes(), [true, true, true]);
    assert_eq!(Widget::Weather.sizes(), [true, true, false]);
    assert_eq!(Widget::UpcomingEvents.sizes(), [false, true, true]);
}

#[test]
fn the_names_of_the_widgets() {
    assert_eq!(Widget::Time.to_string(), "Time (debug widget)");
    assert_eq!(Widget::Weather.to_string(), "Weather");
    assert_eq!(Widget::UpcomingEvents.to_string(), "Upcoming Events");
}

#[test]
fn the_cells_a_widget_covers() {
    let covered = |root: usize, size: WidgetSize, with_root: bool| -> Vec<usize> {
        (0..40).filter(|cell| covers_cell(root, size, with_root, *cell)).collect()
    };
    assert_eq!(covered(9, WidgetSize::Small, true), vec![9]);
    assert_eq!(covered(9, WidgetSize::Small, false), Vec::<usize>::new());
    assert_eq!(covered(9, WidgetSize::Medium, true), vec![9, 10]);
    assert_eq!(covered(9, WidgetSize::Medium, false), vec![10]);
    assert_eq!(covered(9, WidgetSize::Large, true), vec![9, 10, 16, 17]);
    assert_eq!(covered(9, WidgetSize::Large, false), vec![10, 16, 17]);
    assert!(!covers_cell(9, WidgetSize::Large, true, 8));
    assert!(!covers_cell(9, WidgetSize::Large, true, 11));
    assert!(!covers_cell(9, WidgetSize::Large, true, 23));
    assert!(covers_cell(usize::MAX, WidgetSize::Large, true, usize::MAX));
}

#[test]
fn an_empty_grid() {
    let state = WidgetManagerState::default();
    assert!(state.cells().is_empty());
    assert!(state.occupied_cells(true).is_empty());
    assert_eq!(state.widget_at(0), None);
}

#[test]
fn adding_widgets_to_free_cells() {
    let mut state = WidgetManagerState::default();
    assert_eq!(state.add_widget(0, a_widget(WidgetSize::Large)), None);
    assert_eq!(state.add_widget(2, a_widget(WidgetSize::Medium)), None);
    assert_eq!(state.add_widget(27, a_widget(WidgetSize::Small)), None);
    assert_eq!(roots(&state), vec![0, 2, 27]);
    assert_eq!(state.widget_at(0), Some(a_widget(WidgetSize::Large)));
    assert_eq!(state.widget_at(1), None);
    assert_eq!(sorted(state.occupied_cells(true)), vec![0, 1, 2, 3, 7, 8, 27]);
    assert_eq!(sorted(state.occupied_cells(false)), vec![1, 3, 7, 8]);
}

#[test]
fn a_widget_is_not_put_on_a_taken_cell() {
    let mut state = WidgetManagerState::default();
    state.add_widget(8, a_widget(WidgetSize::Large));
    for taken in [8, 9, 15, 16] {
        assert_eq!(state.add_widget(taken, a_widget(WidgetSize::Small)), None);
    }
    assert_eq!(roots(&state), vec![8]);
    // A neighbour whose cells would overlap.
    state.add_widget(7, a_widget(WidgetSize::Medium));
    state.add_widget(1, a_widget(WidgetSize::Large));
    state.add_widget(0, a_widget(WidgetSize::Large));
    assert_eq!(roots(&state), vec![8]);
    // Neighbours that fit.
    state.add_widget(7, a_widget(WidgetSize::Small));
    state.add_widget(10, a_widget(WidgetSize::Large));
    state.add_widget(0, a_widget(WidgetSize::Medium));
    assert_eq!(roots(&state), vec![0, 7, 8, 10]);
}

#[test]
fn a_widget_does_not_cross_the_border() {
    let mut state = WidgetManagerState::default();
    state.add_widget(6, a_widget(WidgetSize::Medium));
    state.add_widget(13, a_widget(WidgetSize::Large));
    state.add_widget(21, a_widget(WidgetSize::Large));
    state.add_widget(26, a_widget(WidgetSize::Large));
    state.add_widget(28, a_widget(WidgetSize::Small));
    state.add_widget(34, a_widget(WidgetSize::Medium));
    assert!(state.cells().is_empty());
    state.add_widget(6, a_widget(WidgetSize::Small));
    state.add_widget(21, a_widget(WidgetSize::Medium));
    state.add_widget(19, a_widget(WidgetSize::Large));
    assert_eq!(roots(&state), vec![6, 19, 21]);
}

#[test]
fn removing_a_widget() {
    let mut state = WidgetManagerState::default();
    state.add_widget(3, a_widget(WidgetSize::Medium));
    assert_eq!(state.remove_widget(&4), None);
    assert_eq!(state.remove_widget(&3), Some(a_widget(WidgetSize::Medium)));
    assert_eq!(state.remove_widget(&3), None);
    assert!(state.cells().is_empty());
    assert_eq!(state.add_widget(4, a_widget(WidgetSize::Small)), None);
    assert_eq!(roots(&state), vec![4]);
}

#[test]
fn moving_a_widget() {
    let mut state = WidgetManagerState::default();
    state.add_widget(0, a_widget(WidgetSize::Large));
    state.add_widget(3, a_widget(WidgetSize::Small));
    // Onto cells that are free.
    state.move_widget(10, &0);
    assert_eq!(roots(&state), vec![3, 10]);
    assert_eq!(state.widget_at(10), Some(a_widget(WidgetSize::Large)));
    // Onto cells of which it covers some itself.
    state.move_widget(11, &10);
    assert_eq!(roots(&state), vec![3, 11]);
    state.move_widget(11, &11);
    assert_eq!(roots(&state), vec![3, 11]);
    // Onto a taken cell, across the border, and from a cell without a widget.
    state.move_widget(2, &11);
    state.move_widget(13, &11);
    state.move_widget(22, &11);
    state.move_widget(20, &5);
    assert_eq!(roots(&state), vec![3, 11]);
    state.move_widget(12, &3);
    assert_eq!(roots(&state), vec![3, 11]);
    state.move_widget(13, &3);
    assert_eq!(roots(&state), vec![11, 13]);
}

#[test]
fn a_state_made_of_given_widgets() {
    let mut given = HashMap::new();
    given.insert(5, a_widget(WidgetSize::Medium));
    given.insert(20, a_widget(WidgetSize::Small));
    let state = WidgetManagerState::new(given.clone());
    assert_eq!(state.cells(), &given);
    assert_eq!(sorted(state.occupied_cells(true)), vec![5, 6, 20]);
}

#[test]
fn weather_codes_in_use() {
    let in_use: Vec<u8> = (0..=255u8).filter(|code| is_weather_code(*code)).collect();
    assert_eq!(
        in_use,
        vec![
            0, 1, 2, 3, 45, 48, 51, 53, 55, 56, 57, 61, 63, 65, 66, 67, 71, 73, 75, 77, 80, 81, 82,
            85, 86, 95, 96, 99
        ]
    );
}

#[test]
fn the_names_of_the_weather() {
    for (code, name) in [
        (0u8, "Clear"),
        (2, "Partly cloudy"),
        (48, "Foggy"),
        (53, "Drizzle"),
        (57, "Freezing drizzle"),
        (65, "Rain"),
        (66, "Freezing rain"),
        (71, "Snow fall"),
        (77, "Snow grains"),
        (81, "Rain showers"),
        (86, "Snow showers"),
        (95, "Thunderstorm"),
        (96, "Thunderstorm with hail"),
        (99, "Thunderstorm with hail"),
    ] {
        assert_eq!(parse_weather_code(code), name);
    }
}

#[test]
fn the_icons_of_the_weather() {
    for (code, icon) in [
        (0u8, WeatherIcon::Sun),
        (1, WeatherIcon::Cloud),
        (3, WeatherIcon::Cloud),
        (45, WeatherIcon::CloudFog),
        (51, WeatherIcon::Drizzle),
        (67, WeatherIcon::Drizzle),
        (82, WeatherIcon::Drizzle),
        (85, WeatherIcon::Drizzle),
        (71, WeatherIcon::Snow),
        (77, WeatherIcon::Snow),
        (95, WeatherIcon::Thunderstorm),
        (99, WeatherIcon::Thunderstorm),
    ] {
        assert_eq!(weather_code_to_icon(code), icon);
    }
}
