use dimland::config::{DimlandArgs, Opacity};
use dimland::view::{
    targets, Buffer, ConfigureReply, DimlandData, DimlandView, DrawCall, OutputInfo, ViewPhase,
};

const A: u32 = 11;
const B: u32 = 12;

fn alpha(value: f32) -> Opacity {
    Opacity::from_bits(value.to_bits())
}

fn args(output: Option<&str>) -> DimlandArgs {
    DimlandArgs { output: output.map(String::from), ..DimlandArgs::default() }
}

fn info(name: &str, width: i32, height: i32) -> OutputInfo {
    OutputInfo { name: Some(String::from(name)), logical_size: Some((width, height)) }
}

fn registry() -> DimlandData {
    DimlandData::new(alpha(0.3), 20)
}

#[test]
fn a_new_registry_is_empty() {
    let data = registry();
    assert_eq!(data.alpha, alpha(0.3));
    assert_eq!(data.radius, 20);
    assert!(data.views.is_empty());
    assert!(!data.exit);
}

#[test]
fn a_fresh_view_is_pending_and_of_no_size() {
    let buffer = Buffer { alpha: alpha(0.3), radius: 20, width: 1920, height: 1080 };
    let view = DimlandView::new(buffer, 5, A, Some(String::from("DP-1")));
    assert!(view.first_configure);
    assert_eq!((view.width, view.height), (0, 0));
    assert_eq!(view.buffer, buffer);
    assert_eq!(view.layer, 5);
    assert_eq!(view.output, A);
    assert_eq!(view.name, Some(String::from("DP-1")));
    assert_eq!(view.phase(), ViewPhase::PendingFirstConfigure);
    assert_eq!(view.duplicate(), view);
}

#[test]
fn a_view_is_made_at_the_logical_size_of_its_output() {
    let data = registry();
    let view = data.create_view(&args(None), A, info("DP-1", 2560, 1440), 7);
    assert_eq!(
        view,
        DimlandView {
            first_configure: true,
            width: 0,
            height: 0,
            buffer: Buffer { alpha: alpha(0.3), radius: 20, width: 2560, height: 1440 },
            layer: 7,
            output: A,
            name: Some(String::from("DP-1")),
        }
    );
}

#[test]
fn a_view_of_an_output_without_size_is_empty() {
    let data = registry();
    let view = data.create_view(&args(None), A, OutputInfo { name: None, logical_size: None }, 7);
    assert_eq!(view.buffer, Buffer { alpha: alpha(0.3), radius: 20, width: 0, height: 0 });
    assert_eq!(view.name, None);
}

#[test]
fn a_negative_size_wraps() {
    let data = registry();
    let view = data.create_view(&args(None), A, info("DP-1", -1, i32::MIN), 7);
    assert_eq!(view.buffer.width, u32::MAX);
    assert_eq!(view.buffer.height, 0x8000_0000);
}

#[test]
fn a_view_of_another_output_than_the_target_is_transparent() {
    let data = registry();
    let view = data.create_view(&args(Some("DP-2")), A, info("DP-1", 800, 600), 7);
    assert_eq!(view.buffer, Buffer { alpha: Opacity::from_bits(0), radius: 0, width: 800, height: 600 });
    let view = data.create_view(&args(Some("DP-1")), A, info("DP-1", 800, 600), 7);
    assert_eq!(view.buffer, Buffer { alpha: alpha(0.3), radius: 20, width: 800, height: 600 });
    let nameless = OutputInfo { name: None, logical_size: Some((800, 600)) };
    let view = data.create_view(&args(Some("DP-1")), A, nameless, 7);
    assert_eq!(view.buffer.alpha, Opacity::from_bits(0));
}

#[test]
fn the_filter_names_one_output_or_none() {
    let dp1 = Some(String::from("DP-1"));
    let dp2 = Some(String::from("DP-2"));
    assert!(targets(&None, &dp1));
    assert!(targets(&None, &None));
    assert!(targets(&dp1, &dp1));
    assert!(!targets(&dp1, &dp2));
    assert!(!targets(&dp1, &None));
}

#[test]
fn outputs_come_change_and_go() {
    let mut data = registry();
    let all = args(None);

    data.new_output(&all, A, info("A", 1920, 1080), 1);
    assert_eq!(data.views.len(), 1);
    assert_eq!(data.views[0].output, A);

    data.new_output(&all, B, info("B", 1280, 720), 2);
    assert_eq!(data.views.len(), 2);
    assert_eq!(data.views[0].output, A);
    assert_eq!(data.views[1].output, B);

    let released = data.output_destroyed(A);
    assert_eq!(released.len(), 1);
    assert_eq!(released[0].output, A);
    assert_eq!(released[0].layer, 1);
    assert_eq!(data.views.len(), 1);
    assert_eq!(data.views[0].output, B);

    let old = data.views[0].clone();
    let discarded = data.update_output(&all, B, info("B", 3840, 2160), 3);
    assert_eq!(discarded, old);
    assert_eq!(discarded.buffer, Buffer { alpha: alpha(0.3), radius: 20, width: 1280, height: 720 });
    assert_eq!(data.views.len(), 1);
    assert_eq!(data.views[0].output, B);
    assert_eq!(data.views[0].layer, 3);
    assert_eq!(
        data.views[0].buffer,
        Buffer { alpha: alpha(0.3), radius: 20, width: 3840, height: 2160 }
    );
    assert!(data.views[0].first_configure);
}

#[test]
fn an_update_of_an_unknown_output_changes_nothing() {
    let mut data = registry();
    let all = args(None);
    data.new_output(&all, A, info("A", 1920, 1080), 1);
    let before = data.clone();
    let discarded = data.update_output(&all, B, info("B", 640, 480), 2);
    assert_eq!(data, before);
    assert_eq!(discarded, before.create_view(&all, B, info("B", 640, 480), 2));
}

#[test]
fn an_update_replaces_the_first_view_of_the_output_in_place() {
    let mut data = registry();
    let all = args(None);
    data.new_output(&all, A, info("A", 100, 100), 1);
    data.new_output(&all, B, info("B", 200, 200), 2);
    data.new_output(&all, A, info("A", 300, 300), 3);
    let discarded = data.update_output(&all, A, info("A", 400, 400), 4);
    assert_eq!(discarded.layer, 1);
    let layers: Vec<u32> = data.views.iter().map(|v| v.layer).collect();
    assert_eq!(layers, [4, 2, 3]);
}

#[test]
fn a_destroyed_output_takes_all_its_views_along() {
    let mut data = registry();
    let all = args(None);
    data.new_output(&all, A, info("A", 100, 100), 1);
    data.new_output(&all, B, info("B", 200, 200), 2);
    data.new_output(&all, A, info("A", 300, 300), 3);
    data.new_output(&all, B, info("B", 400, 400), 4);
    let released = data.output_destroyed(A);
    let gone: Vec<u32> = released.iter().map(|v| v.layer).collect();
    let left: Vec<u32> = data.views.iter().map(|v| v.layer).collect();
    assert_eq!(gone, [1, 3]);
    assert_eq!(left, [2, 4]);
    assert!(data.output_destroyed(A).is_empty());
    assert_eq!(data.views.len(), 2);
}

#[test]
fn the_first_configure_event_sizes_the_buffer_and_draws() {
    let mut data = registry();
    data.new_output(&args(None), A, info("A", 1920, 1080), 1);
    let reply = data.configure(1, (1600, 900));
    let buffer = Buffer { alpha: alpha(0.3), radius: 20, width: 1600, height: 900 };
    assert_eq!(
        reply,
        Some(ConfigureReply {
            layer: 1,
            width: 1600,
            height: 900,
            draw: Some(DrawCall { layer: 1, width: 1600, height: 900, buffer }),
        })
    );
    let view = &data.views[0];
    assert_eq!((view.width, view.height), (1600, 900));
    assert_eq!(view.buffer, buffer);
    assert!(!view.first_configure);
    assert_eq!(view.phase(), ViewPhase::Configured);
    assert_eq!(view.draw(), None);
}

#[test]
fn a_later_configure_event_resizes_without_drawing() {
    let mut data = registry();
    data.new_output(&args(None), A, info("A", 1920, 1080), 1);
    data.configure(1, (1600, 900));
    let reply = data.configure(1, (800, 450));
    assert_eq!(reply, Some(ConfigureReply { layer: 1, width: 800, height: 450, draw: None }));
    let view = &data.views[0];
    assert_eq!((view.width, view.height), (800, 450));
    assert_eq!(view.buffer, Buffer { alpha: alpha(0.3), radius: 20, width: 1600, height: 900 });
    assert!(!view.first_configure);
}

#[test]
fn a_configure_event_for_an_unknown_surface_is_ignored() {
    let mut data = registry();
    data.new_output(&args(None), A, info("A", 1920, 1080), 1);
    let before = data.clone();
    assert_eq!(data.configure(9, (10, 10)), None);
    assert_eq!(data, before);
}

#[test]
fn a_pending_view_draws_and_a_configured_one_does_not() {
    let buffer = Buffer { alpha: alpha(0.5), radius: 0, width: 64, height: 32 };
    let mut view = DimlandView::new(buffer, 4, A, None);
    view.width = 64;
    view.height = 32;
    assert_eq!(view.draw(), Some(DrawCall { layer: 4, width: 64, height: 32, buffer }));
    view.first_configure = false;
    assert_eq!(view.draw(), None);
}

#[test]
fn a_change_of_configuration_renders_every_view_anew() {
    let mut data = registry();
    let all = args(None);
    data.new_output(&all, A, info("A", 1920, 1080), 1);
    data.new_output(&all, B, info("B", 1280, 720), 2);
    data.configure(1, (1920, 1080));
    data.configure(2, (1280, 720));

    let update = DimlandArgs { alpha: Some(alpha(0.8)), radius: Some(4), ..DimlandArgs::default() };
    let calls = data.apply_args(&update);
    let first = Buffer { alpha: alpha(0.8), radius: 4, width: 1920, height: 1080 };
    let second = Buffer { alpha: alpha(0.8), radius: 4, width: 1280, height: 720 };
    assert_eq!(
        calls,
        [
            DrawCall { layer: 1, width: 1920, height: 1080, buffer: first },
            DrawCall { layer: 2, width: 1280, height: 720, buffer: second },
        ]
    );
    assert_eq!(data.alpha, alpha(0.8));
    assert_eq!(data.radius, 4);
    assert_eq!(data.views[0].buffer, first);
    assert_eq!(data.views[1].buffer, second);
    assert!(data.views[0].first_configure && data.views[1].first_configure);

    let reply = data.configure(1, (1920, 1080)).unwrap();
    assert_eq!(reply.draw, Some(DrawCall { layer: 1, width: 1920, height: 1080, buffer: first }));
    assert!(!data.views[0].first_configure);
}

#[test]
fn a_change_for_one_output_leaves_the_others_alone() {
    let mut data = registry();
    let all = args(None);
    data.new_output(&all, A, info("A", 1920, 1080), 1);
    data.new_output(&all, B, info("B", 1280, 720), 2);
    data.configure(1, (1920, 1080));
    data.configure(2, (1280, 720));
    let untouched = data.views[0].clone();

    data.alpha = alpha(0.6);
    data.radius = 9;
    let calls = data.rerender(&Some(String::from("B")));
    let buffer = Buffer { alpha: alpha(0.6), radius: 9, width: 1280, height: 720 };
    assert_eq!(calls, [DrawCall { layer: 2, width: 1280, height: 720, buffer }]);
    assert_eq!(data.views[0], untouched);
    assert_eq!(data.views[1].buffer, buffer);
    assert!(data.views[1].first_configure);

    assert!(data.rerender(&Some(String::from("C"))).is_empty());
}

#[test]
fn defaults_are_applied_where_the_configuration_gives_nothing() {
    let mut data = registry();
    data.new_output(&args(None), A, info("A", 100, 50), 1);
    data.configure(1, (100, 50));
    let bare = DimlandArgs { alpha: None, radius: None, ..DimlandArgs::default() };
    let calls = data.apply_args(&bare);
    assert_eq!(data.alpha, alpha(0.5));
    assert_eq!(data.radius, 0);
    assert_eq!(calls.len(), 1);
    assert_eq!(calls[0].buffer, Buffer { alpha: alpha(0.5), radius: 0, width: 100, height: 50 });
}

#[test]
fn a_closed_surface_ends_the_session() {
    let mut data = registry();
    data.new_output(&args(None), A, info("A", 100, 50), 1);
    let views = data.views.clone();
    data.closed();
    assert!(data.exit);
    assert_eq!(data.views, views);
    assert_eq!(data.alpha, alpha(0.3));
    assert_eq!(data.radius, 20);
}
