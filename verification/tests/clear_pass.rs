//! Behavioural tests of the clear-resolution step: the scenario frames, the
//! per-destination colors, the deduplication guarantee, and the error paths.

use clear_pass::config::ClearColorConfig;
use clear_pass::model::{ClearOp, ClearPassError, Color, Destination, FrameView};
use clear_pass::passes::{destination_universe, orphan_clear_pass, run_clear_pass, view_clear_pass};
use clear_pass::resolve::ResolutionTable;
use clear_pass::touched::TouchedSet;

fn black() -> Color {
    Color::rgba(0, 0, 0, 255)
}

fn red() -> Color {
    Color::rgba(255, 0, 0, 255)
}

fn blue() -> Color {
    Color::rgba(0, 0, 255, 255)
}

fn view(color_attachment: u64, depth: Option<u64>, dest: Option<Destination>) -> FrameView {
    FrameView { color_attachment, depth_attachment: depth, destination: dest }
}

/// Scenario: default black, override {Window(1) -> red}, one view targets
/// Window(1), an idle window 2 exists.  The view's attachment is cleared
/// red, window 2 is cleared black via the orphan pass, and window 1 is not
/// cleared a second time.
#[test]
fn override_view_and_idle_window() {
    let mut config = ClearColorConfig::new(black());
    config.set_override(Destination::Window(1), red());
    let views = vec![view(10, None, Some(Destination::Window(1)))];
    let windows = vec![1, 2];
    let mut resolution = ResolutionTable::new();
    resolution.register(Destination::Window(1), 100);
    resolution.register(Destination::Window(2), 200);

    let ops = run_clear_pass(Some(&config), &views, &windows, &resolution).unwrap();
    assert_eq!(ops.len(), 2);
    assert_eq!(
        ops[0],
        ClearOp {
            texture: 10,
            color: red(),
            depth_texture: None,
            destination: Some(Destination::Window(1)),
        }
    );
    assert_eq!(
        ops[1],
        ClearOp {
            texture: 200,
            color: black(),
            depth_texture: None,
            destination: Some(Destination::Window(2)),
        }
    );
    let for_window_1 = ops
        .iter()
        .filter(|op| op.destination == Some(Destination::Window(1)))
        .count();
    assert_eq!(for_window_1, 1);
}

/// Scenario: two views target Window(1), no depth attachments.  Exactly one
/// clear is planned for that destination — deterministically the first
/// view's — and Window(1) appears exactly once in the touched set.
#[test]
fn two_views_one_destination() {
    let mut config = ClearColorConfig::new(black());
    config.set_override(Destination::Window(1), red());
    let views = vec![
        view(10, None, Some(Destination::Window(1))),
        view(11, None, Some(Destination::Window(1))),
    ];

    let (ops, touched) = view_clear_pass(&views, &config);
    assert_eq!(ops.len(), 1);
    assert_eq!(ops[0].texture, 10);
    assert_eq!(ops[0].color, red());
    assert!(touched.contains(&Destination::Window(1)));
    assert_eq!(touched.len(), 1);

    let windows = vec![1];
    let mut resolution = ResolutionTable::new();
    resolution.register(Destination::Window(1), 100);
    let all = run_clear_pass(Some(&config), &views, &windows, &resolution).unwrap();
    assert_eq!(all.len(), 1);
    assert_eq!(all[0].texture, 10);
}

/// Scenario: a configured override's destination is not a live window and
/// cannot be resolved.  The frame reports it by name instead of submitting
/// a partial plan.
#[test]
fn unresolved_destination_fails_frame() {
    let mut config = ClearColorConfig::new(black());
    config.set_override(Destination::Image(7), red());
    let views: Vec<FrameView> = vec![];
    let windows: Vec<u64> = vec![];
    let resolution = ResolutionTable::new();

    let r = run_clear_pass(Some(&config), &views, &windows, &resolution);
    assert_eq!(
        r,
        Err(ClearPassError::DestinationUnresolved(Destination::Image(7)))
    );
}

/// When several untouched destinations cannot be resolved, the first one in
/// universe order — overridden destinations, then windows — is reported.
#[test]
fn first_unresolvable_destination_reported() {
    let mut config = ClearColorConfig::new(black());
    config.set_override(Destination::Image(7), red());
    config.set_override(Destination::Image(8), red());
    let views: Vec<FrameView> = vec![];
    let windows = vec![3];
    let resolution = ResolutionTable::new();

    let r = run_clear_pass(Some(&config), &views, &windows, &resolution);
    assert_eq!(
        r,
        Err(ClearPassError::DestinationUnresolved(Destination::Image(7)))
    );
}

/// A missing clear-color configuration is a fatal setup error.
#[test]
fn missing_config_fails_frame() {
    let views: Vec<FrameView> = vec![];
    let windows: Vec<u64> = vec![];
    let resolution = ResolutionTable::new();
    let r = run_clear_pass(None, &views, &windows, &resolution);
    assert_eq!(r, Err(ClearPassError::ConfigMissing));
}

/// A view with no destination association, and a view whose destination has
/// no override, are both cleared with the default color.
#[test]
fn default_color_without_override() {
    let config = ClearColorConfig::new(blue());
    let views = vec![
        view(10, None, None),
        view(11, None, Some(Destination::Image(3))),
    ];
    let windows: Vec<u64> = vec![];
    let resolution = ResolutionTable::new();

    let ops = run_clear_pass(Some(&config), &views, &windows, &resolution).unwrap();
    assert_eq!(ops.len(), 2);
    assert_eq!(ops[0].color, blue());
    assert_eq!(ops[0].destination, None);
    assert_eq!(ops[1].color, blue());
    assert_eq!(ops[1].destination, Some(Destination::Image(3)));
}

/// A view with a depth attachment has it cleared in the same render pass;
/// orphan clears never touch depth.
#[test]
fn depth_attachment_cleared_with_view() {
    let config = ClearColorConfig::new(black());
    let views = vec![view(10, Some(50), Some(Destination::Window(1)))];
    let windows = vec![1, 2];
    let mut resolution = ResolutionTable::new();
    resolution.register(Destination::Window(1), 100);
    resolution.register(Destination::Window(2), 200);

    let ops = run_clear_pass(Some(&config), &views, &windows, &resolution).unwrap();
    assert_eq!(ops.len(), 2);
    assert_eq!(ops[0].depth_texture, Some(50));
    assert_eq!(ops[1].depth_texture, None);
}

/// The orphan pass plans nothing for a destination the view pass touched.
#[test]
fn orphan_pass_skips_touched() {
    let mut config = ClearColorConfig::new(black());
    config.set_override(Destination::Window(1), red());
    let windows = vec![1];
    let mut resolution = ResolutionTable::new();
    resolution.register(Destination::Window(1), 100);
    let mut touched = TouchedSet::new();
    touched.insert(Destination::Window(1));

    let ops = orphan_clear_pass(&config, &windows, touched, &resolution).unwrap();
    assert!(ops.is_empty());
}

/// A destination that is both overridden and a live window is still cleared
/// exactly once, with its override.
#[test]
fn overridden_live_window_cleared_once() {
    let mut config = ClearColorConfig::new(black());
    config.set_override(Destination::Window(2), red());
    let views: Vec<FrameView> = vec![];
    let windows = vec![2];
    let mut resolution = ResolutionTable::new();
    resolution.register(Destination::Window(2), 200);

    let ops = run_clear_pass(Some(&config), &views, &windows, &resolution).unwrap();
    assert_eq!(ops.len(), 1);
    assert_eq!(
        ops[0],
        ClearOp {
            texture: 200,
            color: red(),
            depth_texture: None,
            destination: Some(Destination::Window(2)),
        }
    );
}

/// The frame's destination universe lists overridden destinations in
/// configuration order, then live windows in order.
#[test]
fn universe_order_overrides_then_windows() {
    let mut config = ClearColorConfig::new(black());
    config.set_override(Destination::Image(5), red());
    config.set_override(Destination::Window(1), blue());
    let windows = vec![1, 2];

    let cands = destination_universe(&config, &windows);
    assert_eq!(
        cands,
        vec![
            Destination::Image(5),
            Destination::Window(1),
            Destination::Window(1),
            Destination::Window(2),
        ]
    );
}

/// The last override written for a destination wins at configuration time.
#[test]
fn last_override_wins() {
    let mut config = ClearColorConfig::new(black());
    config.set_override(Destination::Window(1), red());
    config.set_override(Destination::Window(1), blue());
    assert_eq!(config.get(&Destination::Window(1)), blue());
    assert_eq!(config.get(&Destination::Window(9)), black());
    assert!(config.is_well_formed());
}

/// The touched set holds each destination at most once.
#[test]
fn touched_set_deduplicates() {
    let mut touched = TouchedSet::new();
    touched.insert(Destination::Image(4));
    touched.insert(Destination::Image(4));
    touched.insert(Destination::Window(4));
    assert_eq!(touched.len(), 2);
    assert!(touched.contains(&Destination::Image(4)));
    assert!(touched.contains(&Destination::Window(4)));
    assert!(!touched.contains(&Destination::TextureView(4)));
}

/// A later registration for a destination replaces the earlier one, and an
/// unknown destination does not resolve.
#[test]
fn resolution_table_replaces_and_rejects() {
    let mut resolution = ResolutionTable::new();
    resolution.register(Destination::Window(1), 100);
    resolution.register(Destination::Window(1), 101);
    assert_eq!(resolution.resolve(&Destination::Window(1)), Some(101));
    assert_eq!(resolution.resolve(&Destination::Window(2)), None);
    assert!(resolution.is_well_formed());
}

/// A manually registered texture view is a destination like any other: an
/// override for it is cleared by the orphan pass when no view targets it.
#[test]
fn manual_texture_view_cleared_as_orphan() {
    let mut config = ClearColorConfig::new(black());
    config.set_override(Destination::TextureView(8), red());
    let views: Vec<FrameView> = vec![];
    let windows: Vec<u64> = vec![];
    let mut resolution = ResolutionTable::new();
    resolution.register(Destination::TextureView(8), 300);

    let ops = run_clear_pass(Some(&config), &views, &windows, &resolution).unwrap();
    assert_eq!(ops.len(), 1);
    assert_eq!(ops[0].texture, 300);
    assert_eq!(ops[0].color, red());
}
