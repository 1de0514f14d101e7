use eframe::egui;
use sculpt_lite::arithmetic::{Arithmetic, Operations};
use sculpt_lite::brush::{SculptTool, SymmetryAxis};
use sculpt_lite::camera::{CameraMode, FlyMovement, FlyMovementMode, MAX_FLY_WHEEL_POINTS};
use sculpt_lite::controls::{
    active_tool_text, adaptive_target_edge_length, adjusted_brush_value, adjusted_radius,
    brush_cursor_color, effective_tool, fly_capture_eligible, fly_capture_should_release,
    fly_look_delta, fly_movement, fly_movement_mode_label, fly_shortcuts_suppressed,
    fly_wheel_points, navigation_action, panic_message, pressed_actions, quick_controls_copy,
    sculpting_allowed, shortcut_bindings, shortcut_hint, shortcut_is_enabled, shortcut_label,
    shortcut_tooltip, shortcuts_for, two_column_item_width, view_controls_summary,
    wheel_delta_points, FlyCaptureEligibility, FlyKeyState, MouseWheelUnit, NavigationAction,
    PointerButton, Shortcut, ShortcutAction, ShortcutAvailability, ShortcutDirection, ShortcutKey,
    BINDING_COUNT, MAX_BRUSH_RADIUS_POINTS, MIN_BRUSH_RADIUS_POINTS, MOUSE_PRESSURE,
};
use sculpt_lite::input::{Modifiers, ScreenPoint};
use sculpt_lite::text::grouped;

fn bits(value: f32) -> u32 {
    value.to_bits()
}

fn number(bits: u32) -> f32 {
    f32::from_bits(bits)
}

fn ops() -> impl Arithmetic {
    Operations {
        sum: |a: u32, b: u32| bits(number(a) + number(b)),
        difference: |a: u32, b: u32| bits(number(a) - number(b)),
        product: |a: u32, b: u32| bits(number(a) * number(b)),
        quotient: |a: u32, b: u32| bits(number(a) / number(b)),
        root: |a: u32| bits(number(a).sqrt()),
        count: |items: usize| bits(items as f32),
    }
}

fn none() -> Modifiers {
    Modifiers::default()
}

fn shift() -> Modifiers {
    Modifiers { shift: true, ..Modifiers::default() }
}

fn ctrl() -> Modifiers {
    Modifiers { ctrl: true, ..Modifiers::default() }
}

fn shift_ctrl() -> Modifiers {
    Modifiers { shift: true, ctrl: true, ..Modifiers::default() }
}

fn at(x: f32, y: f32) -> ScreenPoint {
    ScreenPoint { x: bits(x), y: bits(y) }
}

fn plain(key: ShortcutKey) -> Shortcut {
    Shortcut { ctrl: false, shift: false, key }
}

fn with_ctrl(key: ShortcutKey) -> Shortcut {
    Shortcut { ctrl: true, shift: false, key }
}

#[test]
fn adaptive_target_never_creates_subpoint_edges() {
    let ops = ops();
    let units_per_point = 0.25f32;
    let radius = number(MIN_BRUSH_RADIUS_POINTS) * units_per_point;

    assert_eq!(
        number(adaptive_target_edge_length(bits(radius), bits(0.03), bits(units_per_point), &ops)),
        units_per_point
    );
    assert_eq!(
        number(adaptive_target_edge_length(
            bits(radius * 100.0),
            bits(0.12),
            bits(units_per_point),
            &ops
        )),
        radius * 12.0
    );
}

#[test]
fn grouped_formats_face_counts() {
    assert_eq!(grouped(0), "0");
    assert_eq!(grouped(999), "999");
    assert_eq!(grouped(1_000), "1,000");
    assert_eq!(grouped(1_234_567), "1,234,567");
}

#[test]
fn two_column_row_does_not_grow_its_panel_across_frames() {
    let context = egui::Context::default();

    for frame in 0..16 {
        let input = egui::RawInput {
            screen_rect: Some(egui::Rect::from_min_size(
                egui::Pos2::ZERO,
                egui::Vec2::new(1_280.0, 800.0),
            )),
            time: Some(f64::from(frame) / 60.0),
            ..Default::default()
        };
        let mut panel_width = 0.0;
        let mut output = context.run_ui(input, |root_ui| {
            let panel = egui::Panel::left("tools")
                .resizable(false)
                .default_size(240.0)
                .show(root_ui, |ui| {
                    egui::ScrollArea::vertical().auto_shrink([false, false]).show(ui, |ui| {
                        egui::CollapsingHeader::new("Mask").default_open(true).show(ui, |ui| {
                            ui.horizontal(|ui| {
                                let width = number(two_column_item_width(
                                    bits(ui.available_width()),
                                    bits(ui.spacing().item_spacing.x),
                                    &ops(),
                                ));
                                ui.add_sized([width, 26.0], egui::Button::new("Clear"));
                                ui.add_sized([width, 26.0], egui::Button::new("Invert"));
                            });
                        });
                    });
                });
            panel_width = panel.response.rect.width();
            egui::CentralPanel::default().show(root_ui, |_| {});
        });
        output.textures_delta.clear();

        assert_eq!(panel_width, 240.0, "panel grew on frame {frame}");
    }
}

#[test]
fn two_columns_share_what_the_space_between_them_leaves() {
    assert_eq!(number(two_column_item_width(bits(106.0), bits(6.0), &ops())), 50.0);
    assert_eq!(number(two_column_item_width(bits(2.0), bits(6.0), &ops())), 1.0);
}

#[test]
fn navigation_uses_right_drag_to_pan_and_middle_drag_to_orbit() {
    assert_eq!(navigation_action(PointerButton::Secondary), Some(NavigationAction::Pan));
    assert_eq!(navigation_action(PointerButton::Middle), Some(NavigationAction::Orbit));
    assert_eq!(navigation_action(PointerButton::Primary), None);
}

#[test]
fn quick_controls_copy_matches_the_active_camera_mode() {
    let (orbit_sculpt, orbit_view) = quick_controls_copy(CameraMode::Orbit, FlyMovementMode::Level);
    assert!(orbit_sculpt.contains("LMB drag"));
    assert!(orbit_view.contains("RMB drag pan"));
    assert!(orbit_view.contains("MMB drag orbit"));

    let (level_sculpt, level_view) = quick_controls_copy(CameraMode::Fly, FlyMovementMode::Level);
    assert_eq!(level_sculpt, orbit_sculpt);
    assert!(level_view.contains("Hold RMB"));
    assert!(level_view.contains("WASD horizontal"));
    assert!(level_view.contains("Shift/Space down/up"));

    let (free_sculpt, free_view) = quick_controls_copy(CameraMode::Fly, FlyMovementMode::Free);
    assert_eq!(free_sculpt, orbit_sculpt);
    assert!(free_view.contains("W/S follow look"));
    assert!(free_view.contains("A/D strafe"));
}

#[test]
fn the_summary_of_the_view_follows_the_mode() {
    assert_eq!(
        view_controls_summary(CameraMode::Orbit, FlyMovementMode::Free),
        "RMB: pan · MMB: orbit · Wheel: zoom"
    );
    assert!(view_controls_summary(CameraMode::Fly, FlyMovementMode::Level).contains("horizontal"));
    assert!(view_controls_summary(CameraMode::Fly, FlyMovementMode::Free).contains("follow look"));
}

#[test]
fn fly_movement_mode_labels_identify_level_as_the_minecraft_style() {
    assert_eq!(fly_movement_mode_label(FlyMovementMode::Level), "Level (Minecraft)");
    assert_eq!(fly_movement_mode_label(FlyMovementMode::Free), "Free flight");
}

#[test]
fn fly_key_mapping_uses_expected_signed_axes() {
    assert_eq!(
        fly_movement(FlyKeyState { w: true, a: true, space: true, ..FlyKeyState::default() }),
        FlyMovement { forward: bits(1.0), right: bits(-1.0), up: bits(1.0) }
    );
    assert_eq!(
        fly_movement(FlyKeyState { shift: true, ..FlyKeyState::default() }),
        FlyMovement { up: bits(-1.0), ..FlyMovement::default() }
    );
    assert_eq!(
        fly_movement(FlyKeyState {
            w: true,
            s: true,
            a: true,
            d: true,
            shift: true,
            space: true,
        }),
        FlyMovement::default()
    );
}

#[test]
fn fly_wheel_units_convert_to_points_and_clamp_spikes() {
    let ops = ops();
    let points = |unit: MouseWheelUnit, delta: f32| {
        number(wheel_delta_points(unit, bits(delta), bits(600.0), &ops))
    };
    assert_eq!(points(MouseWheelUnit::Point, 3.5), 3.5);
    assert_eq!(points(MouseWheelUnit::Line, 2.0), 80.0);
    assert_eq!(points(MouseWheelUnit::Page, -0.5), -300.0);
    let turns = vec![(MouseWheelUnit::Page, bits(20.0))];
    assert_eq!(fly_wheel_points(&turns, bits(600.0), &ops), MAX_FLY_WHEEL_POINTS);
}

#[test]
fn turns_of_the_wheel_add_up_without_those_that_are_not_finite() {
    let turns = vec![
        (MouseWheelUnit::Line, bits(1.0)),
        (MouseWheelUnit::Point, bits(f32::NAN)),
        (MouseWheelUnit::Point, bits(2.5)),
    ];
    assert_eq!(number(fly_wheel_points(&turns, bits(600.0), &ops())), 42.5);
    assert_eq!(number(fly_wheel_points(&Vec::new(), bits(600.0), &ops())), 0.0);
}

#[test]
fn fly_look_prefers_raw_motion_with_pointer_fallback() {
    let ops = ops();
    assert_eq!(fly_look_delta(Some(at(8.0, 4.0)), at(1.0, 2.0), bits(2.0), &ops), at(4.0, 2.0));
    assert_eq!(fly_look_delta(None, at(1.0, 2.0), bits(2.0), &ops), at(1.0, 2.0));
    assert_eq!(fly_look_delta(Some(at(8.0, 4.0)), at(1.0, 2.0), bits(0.0), &ops), at(8.0, 4.0));
}

#[test]
fn fly_capture_eligibility_rejects_strokes_mesh_jobs_and_modals() {
    let ready = FlyCaptureEligibility {
        mode: CameraMode::Fly,
        viewport_hovered: true,
        focused: true,
        has_mesh: true,
        stroke_active: false,
        mesh_job_active: false,
        modal_active: false,
    };
    assert!(fly_capture_eligible(ready));
    assert!(!fly_capture_eligible(FlyCaptureEligibility { stroke_active: true, ..ready }));
    assert!(!fly_capture_eligible(FlyCaptureEligibility { mesh_job_active: true, ..ready }));
    assert!(!fly_capture_eligible(FlyCaptureEligibility { modal_active: true, ..ready }));
    assert!(!fly_capture_eligible(FlyCaptureEligibility { viewport_hovered: false, ..ready }));
    assert!(!fly_capture_eligible(FlyCaptureEligibility { mode: CameraMode::Orbit, ..ready }));
}

#[test]
fn active_flight_suppresses_shortcuts_and_releases_on_escape_or_focus_loss() {
    assert!(fly_shortcuts_suppressed(CameraMode::Fly, true, true));
    assert!(fly_shortcuts_suppressed(CameraMode::Fly, false, true));
    assert!(!fly_shortcuts_suppressed(CameraMode::Orbit, false, true));
    assert!(fly_capture_should_release(true, true, true, true, true));
    assert!(fly_capture_should_release(true, true, false, false, true));
    assert!(fly_capture_should_release(true, false, false, true, true));
    assert!(fly_capture_should_release(true, true, false, true, false));
    assert!(!fly_capture_should_release(true, true, false, true, true));
}

#[test]
fn releasing_flight_restores_existing_sculpt_interactions() {
    assert!(!sculpting_allowed(true));
    assert!(sculpting_allowed(false));
    assert_eq!(effective_tool(SculptTool::Draw, none()), SculptTool::Draw);
    assert_eq!(effective_tool(SculptTool::Grab, none()), SculptTool::Grab);
    assert_eq!(effective_tool(SculptTool::Draw, shift()), SculptTool::Smooth);
    assert_eq!(active_tool_text(SculptTool::Draw, false, ctrl()), "Draw · inverted");
}

#[test]
fn active_tool_feedback_explains_temporary_modifiers() {
    assert_eq!(active_tool_text(SculptTool::Clay, false, none()), "Clay");
    assert_eq!(active_tool_text(SculptTool::Clay, false, shift()), "Smooth · temporary");
    assert_eq!(active_tool_text(SculptTool::Clay, false, ctrl()), "Clay · inverted");
    assert_eq!(
        active_tool_text(SculptTool::Clay, false, shift_ctrl()),
        "Smooth · temporary · inverted"
    );
    assert_eq!(active_tool_text(SculptTool::Mask, false, shift()), "Mask");
    assert_eq!(active_tool_text(SculptTool::Clay, true, none()), "Clay · inverted");
    assert_eq!(active_tool_text(SculptTool::Clay, true, ctrl()), "Clay");
}

#[test]
fn cursor_color_tracks_temporary_brush_behavior() {
    let normal = brush_cursor_color(SculptTool::Clay, false, none());
    let smooth = brush_cursor_color(SculptTool::Clay, false, shift());
    let inverted = brush_cursor_color(SculptTool::Clay, false, ctrl());

    assert_ne!(normal, smooth);
    assert_ne!(normal, inverted);
    assert_eq!(brush_cursor_color(SculptTool::Clay, false, shift_ctrl()), inverted);
    assert_eq!(brush_cursor_color(SculptTool::Mask, false, shift()), normal);
    assert_eq!(brush_cursor_color(SculptTool::Clay, true, none()), inverted);
    assert_eq!(brush_cursor_color(SculptTool::Clay, true, ctrl()), normal);
}

#[test]
fn every_sculpt_tool_has_help_text() {
    for tool in SculptTool::ALL {
        assert!(!tool.description().is_empty(), "missing help for {}", tool.label());
    }
}

#[test]
fn mouse_samples_use_full_pressure() {
    assert_eq!(number(MOUSE_PRESSURE), 1.0);
}

#[test]
fn tool_shortcuts_follow_workflow_order() {
    let assignments = [
        (SculptTool::Draw, ShortcutKey::Num1),
        (SculptTool::Clay, ShortcutKey::Num2),
        (SculptTool::Crease, ShortcutKey::Num3),
        (SculptTool::Inflate, ShortcutKey::Num4),
        (SculptTool::Smooth, ShortcutKey::Num5),
        (SculptTool::Pinch, ShortcutKey::Num6),
        (SculptTool::Flatten, ShortcutKey::Num7),
        (SculptTool::Grab, ShortcutKey::Num8),
        (SculptTool::Mask, ShortcutKey::Num9),
    ];

    assert_eq!(SculptTool::ALL, assignments.map(|(tool, _shortcut)| tool));
    for (tool, key) in assignments {
        assert_eq!(shortcuts_for(ShortcutAction::SelectTool(tool)), [plain(key)]);
    }
}

#[test]
fn inline_shortcut_labels_put_the_key_after_the_label_in_parentheses() {
    let context = egui::Context::default();
    let names = |action: ShortcutAction| -> Vec<String> {
        shortcuts_for(action)
            .iter()
            .map(|shortcut| {
                let key = match shortcut.key {
                    ShortcutKey::Num1 => egui::Key::Num1,
                    ShortcutKey::Num0 => egui::Key::Num0,
                    _ => unreachable!(),
                };
                context.format_shortcut(&egui::KeyboardShortcut::new(egui::Modifiers::NONE, key))
            })
            .collect()
    };
    assert_eq!(
        shortcut_label("Draw", &shortcut_hint(&names(ShortcutAction::SelectTool(SculptTool::Draw)))),
        "Draw (1)"
    );
    assert_eq!(
        shortcut_label("Off", &shortcut_hint(&names(ShortcutAction::SetSymmetry(None)))),
        "Off (0)"
    );
}

#[test]
fn hints_stand_one_after_the_other() {
    assert_eq!(shortcut_hint(&Vec::new()), "");
    assert_eq!(shortcut_hint(&vec!["A".to_owned()]), "A");
    assert_eq!(shortcut_hint(&vec!["[".to_owned(), "]".to_owned(), "X".to_owned()]), "[ / ] / X");
    assert_eq!(shortcut_tooltip("Ctrl+Z"), "Shortcut: Ctrl+Z");
}

#[test]
fn shortcut_bindings_are_unique_and_prioritize_specific_redo() {
    let bindings = shortcut_bindings();
    for (index, binding) in bindings.iter().enumerate() {
        assert!(
            bindings[..index].iter().all(|earlier| earlier.shortcut != binding.shortcut),
            "duplicate shortcut: {:?}",
            binding.shortcut
        );
    }

    let shifted_redo = Shortcut { ctrl: true, shift: true, key: ShortcutKey::Z };
    let undo = with_ctrl(ShortcutKey::Z);
    let shifted_redo_index =
        bindings.iter().position(|binding| binding.shortcut == shifted_redo).unwrap();
    let undo_index = bindings.iter().position(|binding| binding.shortcut == undo).unwrap();
    assert!(shifted_redo_index < undo_index);

    assert_eq!(shortcuts_for(ShortcutAction::ToggleBrushInvert), [plain(ShortcutKey::I)]);
    assert_eq!(shortcuts_for(ShortcutAction::InvertMask), [with_ctrl(ShortcutKey::I)]);
    assert_eq!(shortcuts_for(ShortcutAction::ToggleCameraMode), [plain(ShortcutKey::V)]);
}

#[test]
fn pressed_shortcuts_give_each_action_once() {
    let mut pressed = vec![false; BINDING_COUNT];
    assert!(pressed_actions(&pressed).is_empty());
    // Redo is on two shortcuts.
    pressed[1] = true;
    pressed[3] = true;
    pressed[4] = true;
    assert_eq!(pressed_actions(&pressed), [ShortcutAction::Redo, ShortcutAction::Undo]);
}

#[test]
fn shortcut_availability_matches_control_state() {
    let ready = ShortcutAvailability {
        actions_ready: true,
        mesh_ready: true,
        can_undo: true,
        can_redo: false,
        tool: SculptTool::Draw,
    };
    assert!(shortcut_is_enabled(ShortcutAction::Open, ready));
    assert!(shortcut_is_enabled(ShortcutAction::Undo, ready));
    assert!(!shortcut_is_enabled(ShortcutAction::Redo, ready));
    assert!(shortcut_is_enabled(ShortcutAction::ToggleAirbrush, ready));
    assert!(shortcut_is_enabled(ShortcutAction::ToggleAdaptiveTopology, ready));

    assert!(!shortcut_is_enabled(
        ShortcutAction::ToggleAirbrush,
        ShortcutAvailability { tool: SculptTool::Grab, ..ready }
    ));
    assert!(!shortcut_is_enabled(
        ShortcutAction::ToggleAdaptiveTopology,
        ShortcutAvailability { tool: SculptTool::Mask, ..ready }
    ));

    let unavailable = ShortcutAvailability {
        actions_ready: false,
        mesh_ready: false,
        can_undo: true,
        can_redo: true,
        tool: SculptTool::Draw,
    };
    assert!(!shortcut_is_enabled(ShortcutAction::Open, unavailable));
    assert!(!shortcut_is_enabled(ShortcutAction::SelectTool(SculptTool::Clay), unavailable));
    assert!(shortcut_is_enabled(ShortcutAction::ToggleWireframe, unavailable));
}

#[test]
fn brush_shortcut_steps_clamp_to_slider_bounds() {
    let ops = ops();
    let adjusted = |value: f32, direction: ShortcutDirection, low: f32, high: f32| {
        number(adjusted_brush_value(bits(value), direction, bits(low), bits(high), &ops))
    };
    assert_eq!(adjusted(0.5, ShortcutDirection::Decrease, 0.01, 1.0), 0.45);
    assert_eq!(adjusted(0.5, ShortcutDirection::Increase, 0.01, 1.0), 0.55);
    assert_eq!(adjusted(0.01, ShortcutDirection::Decrease, 0.01, 1.0), 0.01);
    assert_eq!(adjusted(0.95, ShortcutDirection::Increase, 0.0, 0.95), 0.95);
}

#[test]
fn radius_steps_stay_within_their_bounds() {
    let ops = ops();
    assert_eq!(
        number(adjusted_radius(bits(50.0), ShortcutDirection::Increase, &ops)),
        50.0f32 * 1.12
    );
    assert_eq!(
        number(adjusted_radius(bits(50.0), ShortcutDirection::Decrease, &ops)),
        50.0f32 / 1.12
    );
    assert_eq!(
        adjusted_radius(MAX_BRUSH_RADIUS_POINTS, ShortcutDirection::Increase, &ops),
        MAX_BRUSH_RADIUS_POINTS
    );
    assert_eq!(
        adjusted_radius(MIN_BRUSH_RADIUS_POINTS, ShortcutDirection::Decrease, &ops),
        MIN_BRUSH_RADIUS_POINTS
    );
}

#[test]
fn symmetry_shortcuts_name_their_axes() {
    assert_eq!(
        shortcuts_for(ShortcutAction::SetSymmetry(Some(SymmetryAxis::Y))),
        [plain(ShortcutKey::Y)]
    );
    assert_eq!(shortcuts_for(ShortcutAction::Redo).len(), 2);
}

#[test]
fn a_panic_without_a_text_has_one() {
    assert_eq!(panic_message(Some("out of range".to_owned())), "out of range");
    assert_eq!(panic_message(None), "mesh operation panicked");
}
