//! What keys, buttons and the wheel do, and what is said about it.
use crate::arithmetic::Arithmetic;
use crate::brush::{SculptTool, SymmetryAxis};
use crate::camera::{CameraMode, FlyMovement, FlyMovementMode};
use crate::camera::{MAX_FLY_WHEEL_POINTS, MINUS_ONE, MIN_FLY_WHEEL_POINTS};
use crate::input::{Modifiers, ScreenPoint};
use crate::scalar;
use vstd::prelude::*;
use vstd::string::StringExecFns;

verus! {

/// The bit pattern of `55.0`.
pub const INITIAL_BRUSH_RADIUS_POINTS: u32 = 0x425c_0000;

/// The bit pattern of `4.0`.
pub const MIN_BRUSH_RADIUS_POINTS: u32 = 0x4080_0000;

/// The bit pattern of `300.0`.
pub const MAX_BRUSH_RADIUS_POINTS: u32 = 0x4396_0000;

/// The bit pattern of `1.12`.
pub const BRUSH_RADIUS_STEP: u32 = 0x3f8f_5c29;

/// The bit pattern of `10.0`.
pub const DEFAULT_AIRBRUSH_DABS_PER_SECOND: u32 = 0x4120_0000;

/// The bit pattern of `2.0`.
pub const MIN_AIRBRUSH_DABS_PER_SECOND: u32 = 0x4000_0000;

/// The bit pattern of `30.0`.
pub const MAX_AIRBRUSH_DABS_PER_SECOND: u32 = 0x41f0_0000;

/// The bit pattern of `0.15`.
pub const BRUSH_SPACING_RADIUS_FRACTION: u32 = 0x3e19_999a;

/// The bit pattern of `0.12`.
pub const DEFAULT_ADAPTIVE_DETAIL: u32 = 0x3df5_c28f;

/// The bit pattern of `0.03`.
pub const FINEST_ADAPTIVE_DETAIL: u32 = 0x3cf5_c28f;

/// The bit pattern of `0.35`.
pub const COARSEST_ADAPTIVE_DETAIL: u32 = 0x3eb3_3333;

/// The bit pattern of `1.0`: a mouse presses fully.
pub const MOUSE_PRESSURE: u32 = 0x3f80_0000;

/// The bit pattern of `0.05`.
pub const BRUSH_VALUE_STEP: u32 = 0x3d4c_cccd;

/// The bit pattern of `0.01`.
pub const MIN_STRENGTH: u32 = 0x3c23_d70a;

/// The bit pattern of `0.95`.
pub const MAX_HARDNESS: u32 = 0x3f73_3333;

/// The bit pattern of `40.0`.
pub const WHEEL_POINTS_PER_LINE: u32 = 0x4220_0000;

#[derive(Clone, Copy, Debug, PartialEq, Eq, Structural)]
pub enum ShortcutDirection {
    Decrease,
    Increase,
}

/// What a shortcut does.
#[derive(Clone, Copy, Debug, PartialEq, Eq, Structural)]
pub enum ShortcutAction {
    Open,
    Export,
    Undo,
    Redo,
    Frame,
    ToggleCameraMode,
    ToggleWireframe,
    SelectTool(SculptTool),
    AdjustRadius(ShortcutDirection),
    AdjustStrength(ShortcutDirection),
    AdjustHardness(ShortcutDirection),
    ToggleAirbrush,
    ToggleAdaptiveTopology,
    ToggleBrushInvert,
    SetSymmetry(Option<SymmetryAxis>),
    ClearMask,
    InvertMask,
}

/// The keys that shortcuts are on.
#[derive(Clone, Copy, Debug, PartialEq, Eq, Structural)]
pub enum ShortcutKey {
    S,
    Z,
    O,
    Y,
    Backspace,
    I,
    F,
    V,
    W,
    Num1,
    Num2,
    Num3,
    Num4,
    Num5,
    Num6,
    Num7,
    Num8,
    Num9,
    OpenBracket,
    CloseBracket,
    Minus,
    Equals,
    Comma,
    Period,
    A,
    T,
    Num0,
    X,
}

/// A key, and the keys that have to be held along with it.
#[derive(Clone, Copy, Debug, PartialEq, Eq, Structural)]
pub struct Shortcut {
    pub ctrl: bool,
    pub shift: bool,
    pub key: ShortcutKey,
}

#[derive(Clone, Copy, Debug, PartialEq, Eq, Structural)]
pub struct ShortcutBinding {
    pub shortcut: Shortcut,
    pub action: ShortcutAction,
}

pub open spec fn binding_of(
    ctrl: bool,
    shift: bool,
    key: ShortcutKey,
    action: ShortcutAction,
) -> ShortcutBinding {
    ShortcutBinding { shortcut: Shortcut { ctrl, shift, key }, action }
}

fn bind(ctrl: bool, shift: bool, key: ShortcutKey, action: ShortcutAction) -> (result:
    ShortcutBinding)
    ensures
        result == binding_of(ctrl, shift, key, action),
{
    ShortcutBinding { shortcut: Shortcut { ctrl, shift, key }, action }
}

/// What is bound to which keys. A shortcut that needs Shift comes before the same one without it,
/// because an extra Shift does not keep a shortcut from being taken.
pub open spec fn bindings() -> Seq<ShortcutBinding> {
    seq![
        binding_of(true, true, ShortcutKey::S, ShortcutAction::Export),
        binding_of(true, true, ShortcutKey::Z, ShortcutAction::Redo),
        binding_of(true, false, ShortcutKey::O, ShortcutAction::Open),
        binding_of(true, false, ShortcutKey::Z, ShortcutAction::Undo),
        binding_of(true, false, ShortcutKey::Y, ShortcutAction::Redo),
        binding_of(true, false, ShortcutKey::Backspace, ShortcutAction::ClearMask),
        binding_of(true, false, ShortcutKey::I, ShortcutAction::InvertMask),
        binding_of(false, false, ShortcutKey::F, ShortcutAction::Frame),
        binding_of(false, false, ShortcutKey::V, ShortcutAction::ToggleCameraMode),
        binding_of(false, false, ShortcutKey::W, ShortcutAction::ToggleWireframe),
        binding_of(false, false, ShortcutKey::Num1, ShortcutAction::SelectTool(SculptTool::Draw)),
        binding_of(false, false, ShortcutKey::Num2, ShortcutAction::SelectTool(SculptTool::Clay)),
        binding_of(false, false, ShortcutKey::Num3, ShortcutAction::SelectTool(SculptTool::Crease)),
        binding_of(false, false, ShortcutKey::Num4, ShortcutAction::SelectTool(SculptTool::Inflate)),
        binding_of(false, false, ShortcutKey::Num5, ShortcutAction::SelectTool(SculptTool::Smooth)),
        binding_of(false, false, ShortcutKey::Num6, ShortcutAction::SelectTool(SculptTool::Pinch)),
        binding_of(false, false, ShortcutKey::Num7, ShortcutAction::SelectTool(SculptTool::Flatten)),
        binding_of(false, false, ShortcutKey::Num8, ShortcutAction::SelectTool(SculptTool::Grab)),
        binding_of(false, false, ShortcutKey::Num9, ShortcutAction::SelectTool(SculptTool::Mask)),
        binding_of(false, false, ShortcutKey::OpenBracket, ShortcutAction::AdjustRadius(ShortcutDirection::Decrease)),
        binding_of(false, false, ShortcutKey::CloseBracket, ShortcutAction::AdjustRadius(ShortcutDirection::Increase)),
        binding_of(false, false, ShortcutKey::Minus, ShortcutAction::AdjustStrength(ShortcutDirection::Decrease)),
        binding_of(false, false, ShortcutKey::Equals, ShortcutAction::AdjustStrength(ShortcutDirection::Increase)),
        binding_of(false, false, ShortcutKey::Comma, ShortcutAction::AdjustHardness(ShortcutDirection::Decrease)),
        binding_of(false, false, ShortcutKey::Period, ShortcutAction::AdjustHardness(ShortcutDirection::Increase)),
        binding_of(false, false, ShortcutKey::A, ShortcutAction::ToggleAirbrush),
        binding_of(false, false, ShortcutKey::T, ShortcutAction::ToggleAdaptiveTopology),
        binding_of(false, false, ShortcutKey::I, ShortcutAction::ToggleBrushInvert),
        binding_of(false, false, ShortcutKey::Num0, ShortcutAction::SetSymmetry(None)),
        binding_of(false, false, ShortcutKey::X, ShortcutAction::SetSymmetry(Some(SymmetryAxis::X))),
        binding_of(false, false, ShortcutKey::Y, ShortcutAction::SetSymmetry(Some(SymmetryAxis::Y))),
        binding_of(false, false, ShortcutKey::Z, ShortcutAction::SetSymmetry(Some(SymmetryAxis::Z))),
    ]
}

/// How many shortcuts there are.
pub const BINDING_COUNT: usize = 32;

pub fn shortcut_bindings() -> (result: Vec<ShortcutBinding>)
    ensures
        result@ == bindings(),
        result@.len() == BINDING_COUNT,
{
    let list = vec![
        bind(true, true, ShortcutKey::S, ShortcutAction::Export),
        bind(true, true, ShortcutKey::Z, ShortcutAction::Redo),
        bind(true, false, ShortcutKey::O, ShortcutAction::Open),
        bind(true, false, ShortcutKey::Z, ShortcutAction::Undo),
        bind(true, false, ShortcutKey::Y, ShortcutAction::Redo),
        bind(true, false, ShortcutKey::Backspace, ShortcutAction::ClearMask),
        bind(true, false, ShortcutKey::I, ShortcutAction::InvertMask),
        bind(false, false, ShortcutKey::F, ShortcutAction::Frame),
        bind(false, false, ShortcutKey::V, ShortcutAction::ToggleCameraMode),
        bind(false, false, ShortcutKey::W, ShortcutAction::ToggleWireframe),
        bind(false, false, ShortcutKey::Num1, ShortcutAction::SelectTool(SculptTool::Draw)),
        bind(false, false, ShortcutKey::Num2, ShortcutAction::SelectTool(SculptTool::Clay)),
        bind(false, false, ShortcutKey::Num3, ShortcutAction::SelectTool(SculptTool::Crease)),
        bind(false, false, ShortcutKey::Num4, ShortcutAction::SelectTool(SculptTool::Inflate)),
        bind(false, false, ShortcutKey::Num5, ShortcutAction::SelectTool(SculptTool::Smooth)),
        bind(false, false, ShortcutKey::Num6, ShortcutAction::SelectTool(SculptTool::Pinch)),
        bind(false, false, ShortcutKey::Num7, ShortcutAction::SelectTool(SculptTool::Flatten)),
        bind(false, false, ShortcutKey::Num8, ShortcutAction::SelectTool(SculptTool::Grab)),
        bind(false, false, ShortcutKey::Num9, ShortcutAction::SelectTool(SculptTool::Mask)),
        bind(false, false, ShortcutKey::OpenBracket, ShortcutAction::AdjustRadius(ShortcutDirection::Decrease)),
        bind(false, false, ShortcutKey::CloseBracket, ShortcutAction::AdjustRadius(ShortcutDirection::Increase)),
        bind(false, false, ShortcutKey::Minus, ShortcutAction::AdjustStrength(ShortcutDirection::Decrease)),
        bind(false, false, ShortcutKey::Equals, ShortcutAction::AdjustStrength(ShortcutDirection::Increase)),
        bind(false, false, ShortcutKey::Comma, ShortcutAction::AdjustHardness(ShortcutDirection::Decrease)),
        bind(false, false, ShortcutKey::Period, ShortcutAction::AdjustHardness(ShortcutDirection::Increase)),
        bind(false, false, ShortcutKey::A, ShortcutAction::ToggleAirbrush),
        bind(false, false, ShortcutKey::T, ShortcutAction::ToggleAdaptiveTopology),
        bind(false, false, ShortcutKey::I, ShortcutAction::ToggleBrushInvert),
        bind(false, false, ShortcutKey::Num0, ShortcutAction::SetSymmetry(None)),
        bind(false, false, ShortcutKey::X, ShortcutAction::SetSymmetry(Some(SymmetryAxis::X))),
        bind(false, false, ShortcutKey::Y, ShortcutAction::SetSymmetry(Some(SymmetryAxis::Y))),
        bind(false, false, ShortcutKey::Z, ShortcutAction::SetSymmetry(Some(SymmetryAxis::Z))),
    ];
    assert(list@ =~= bindings());
    list
}

/// Where a shortcut stands in the list, if it does.
spec fn place_of(shortcut: Shortcut) -> int {
    match shortcut.key {
        ShortcutKey::S => 0,
        ShortcutKey::Z => if shortcut.ctrl && shortcut.shift { 1 } else if shortcut.ctrl { 3 } else { 31 },
        ShortcutKey::O => 2,
        ShortcutKey::Y => if shortcut.ctrl { 4 } else { 30 },
        ShortcutKey::Backspace => 5,
        ShortcutKey::I => if shortcut.ctrl { 6 } else { 27 },
        ShortcutKey::F => 7,
        ShortcutKey::V => 8,
        ShortcutKey::W => 9,
        ShortcutKey::Num1 => 10,
        ShortcutKey::Num2 => 11,
        ShortcutKey::Num3 => 12,
        ShortcutKey::Num4 => 13,
        ShortcutKey::Num5 => 14,
        ShortcutKey::Num6 => 15,
        ShortcutKey::Num7 => 16,
        ShortcutKey::Num8 => 17,
        ShortcutKey::Num9 => 18,
        ShortcutKey::OpenBracket => 19,
        ShortcutKey::CloseBracket => 20,
        ShortcutKey::Minus => 21,
        ShortcutKey::Equals => 22,
        ShortcutKey::Comma => 23,
        ShortcutKey::Period => 24,
        ShortcutKey::A => 25,
        ShortcutKey::T => 26,
        ShortcutKey::Num0 => 28,
        ShortcutKey::X => 29,
    }
}

/// No shortcut is bound twice.
pub proof fn shortcuts_are_bound_once(i: int, j: int)
    requires
        0 <= i < BINDING_COUNT,
        0 <= j < BINDING_COUNT,
        bindings()[i].shortcut == bindings()[j].shortcut,
    ensures
        i == j,
{
    lemma_place(i);
    lemma_place(j);
}

proof fn lemma_place(i: int)
    requires
        0 <= i < BINDING_COUNT,
    ensures
        place_of(bindings()[i].shortcut) == i,
{
}

/// A shortcut that needs more keys held comes before one on the same key that needs fewer.
pub proof fn specific_shortcuts_come_first(i: int, j: int)
    requires
        0 <= i < BINDING_COUNT,
        0 <= j < BINDING_COUNT,
        bindings()[i].shortcut.key == bindings()[j].shortcut.key,
        bindings()[j].shortcut.ctrl ==> bindings()[i].shortcut.ctrl,
        bindings()[j].shortcut.shift ==> bindings()[i].shortcut.shift,
    ensures
        i <= j,
{
    lemma_place(i);
    lemma_place(j);
}

/// The shortcuts of an action, in the order in which they are bound.
pub open spec fn shortcuts_of(list: Seq<ShortcutBinding>, action: ShortcutAction) -> Seq<Shortcut>
    decreases list.len(),
{
    if list.len() == 0 {
        Seq::empty()
    } else if list.last().action == action {
        shortcuts_of(list.drop_last(), action).push(list.last().shortcut)
    } else {
        shortcuts_of(list.drop_last(), action)
    }
}

pub fn shortcuts_for(action: ShortcutAction) -> (result: Vec<Shortcut>)
    ensures
        result@ == shortcuts_of(bindings(), action),
{
    let list = shortcut_bindings();
    let mut found: Vec<Shortcut> = Vec::new();
    let mut i: usize = 0;
    while i < list.len()
        invariant
            i <= list@.len(),
            list@ == bindings(),
            found@ == shortcuts_of(list@.take(i as int), action),
        decreases list@.len() - i,
    {
        assert(list@.take(i + 1).drop_last() =~= list@.take(i as int));
        if list[i].action == action {
            found.push(list[i].shortcut);
        }
        i += 1;
    }
    assert(list@.take(i as int) =~= list@);
    found
}

/// The actions of the shortcuts that were pressed, each once, in the order of the bindings.
pub open spec fn actions_of(pressed: Seq<bool>, count: int) -> Seq<ShortcutAction>
    decreases count,
{
    if count <= 0 {
        Seq::empty()
    } else {
        let before = actions_of(pressed, count - 1);
        let action = bindings()[count - 1].action;
        if pressed[count - 1] && !before.contains(action) {
            before.push(action)
        } else {
            before
        }
    }
}

/// Tells which actions were asked for, given for each binding whether it was pressed.
pub fn pressed_actions(pressed: &Vec<bool>) -> (result: Vec<ShortcutAction>)
    requires
        pressed@.len() == BINDING_COUNT,
    ensures
        result@ == actions_of(pressed@, BINDING_COUNT as int),
        result@.no_duplicates(),
{
    let list = shortcut_bindings();
    let mut actions: Vec<ShortcutAction> = Vec::new();
    let mut i: usize = 0;
    while i < BINDING_COUNT
        invariant
            i <= BINDING_COUNT,
            list@ == bindings(),
            list@.len() == BINDING_COUNT,
            pressed@.len() == BINDING_COUNT,
            actions@ == actions_of(pressed@, i as int),
            actions@.no_duplicates(),
        decreases BINDING_COUNT - i,
    {
        let action = list[i].action;
        if pressed[i] && !asked(&actions, action) {
            actions.push(action);
        }
        i += 1;
    }
    actions
}

fn asked(actions: &Vec<ShortcutAction>, action: ShortcutAction) -> (result: bool)
    ensures
        result == actions@.contains(action),
{
    let mut i: usize = 0;
    while i < actions.len()
        invariant
            i <= actions@.len(),
            forall|k: int| 0 <= k < i ==> actions@[k] != action,
        decreases actions@.len() - i,
    {
        if actions[i] == action {
            return true;
        }
        i += 1;
    }
    false
}

/// What can be done at a moment.
#[derive(Clone, Copy, Debug, PartialEq, Eq, Structural)]
pub struct ShortcutAvailability {
    pub actions_ready: bool,
    pub mesh_ready: bool,
    pub can_undo: bool,
    pub can_redo: bool,
    pub tool: SculptTool,
}

pub open spec fn enabled(action: ShortcutAction, availability: ShortcutAvailability) -> bool {
    match action {
        ShortcutAction::ToggleWireframe => true,
        ShortcutAction::Open => availability.actions_ready,
        ShortcutAction::Undo => availability.mesh_ready && availability.can_undo,
        ShortcutAction::Redo => availability.mesh_ready && availability.can_redo,
        ShortcutAction::ToggleAirbrush => availability.mesh_ready && !(availability.tool is Grab),
        ShortcutAction::ToggleAdaptiveTopology => availability.mesh_ready && !(
        availability.tool is Mask),
        _ => availability.mesh_ready,
    }
}

pub fn shortcut_is_enabled(action: ShortcutAction, availability: ShortcutAvailability) -> (result:
    bool)
    ensures
        result == enabled(action, availability),
{
    match action {
        ShortcutAction::ToggleWireframe => true,
        ShortcutAction::Open => availability.actions_ready,
        ShortcutAction::Undo => availability.mesh_ready && availability.can_undo,
        ShortcutAction::Redo => availability.mesh_ready && availability.can_redo,
        ShortcutAction::ToggleAirbrush => availability.mesh_ready && availability.tool
            != SculptTool::Grab,
        ShortcutAction::ToggleAdaptiveTopology => availability.mesh_ready && availability.tool
            != SculptTool::Mask,
        _ => availability.mesh_ready,
    }
}

/// A value one step larger or smaller, within bounds.
pub fn adjusted_brush_value<O: Arithmetic>(
    value: u32,
    direction: ShortcutDirection,
    minimum: u32,
    maximum: u32,
    ops: &O,
) -> (result: u32)
    requires
        ops.total(),
    ensures
        result == spec_adjusted_brush_value(ops, value, direction, minimum, maximum),
{
    let delta = match direction {
        ShortcutDirection::Decrease => scalar::negate(BRUSH_VALUE_STEP),
        ShortcutDirection::Increase => BRUSH_VALUE_STEP,
    };
    scalar::clamp(ops.sum(value, delta), minimum, maximum)
}

pub open spec fn spec_adjusted_brush_value<O: Arithmetic>(
    ops: &O,
    value: u32,
    direction: ShortcutDirection,
    minimum: u32,
    maximum: u32,
) -> u32 {
    let step = match direction {
        ShortcutDirection::Decrease => scalar::negated(BRUSH_VALUE_STEP),
        ShortcutDirection::Increase => BRUSH_VALUE_STEP,
    };
    scalar::clamped(ops.spec_sum(value, step), minimum, maximum)
}

pub open spec fn spec_adjusted_radius<O: Arithmetic>(
    ops: &O,
    radius: u32,
    direction: ShortcutDirection,
) -> u32 {
    match direction {
        ShortcutDirection::Decrease => scalar::greatest(
            ops.spec_quotient(radius, BRUSH_RADIUS_STEP),
            MIN_BRUSH_RADIUS_POINTS,
        ),
        ShortcutDirection::Increase => scalar::least(
            ops.spec_product(radius, BRUSH_RADIUS_STEP),
            MAX_BRUSH_RADIUS_POINTS,
        ),
    }
}

/// A radius one step larger or smaller, within bounds.
pub fn adjusted_radius<O: Arithmetic>(radius: u32, direction: ShortcutDirection, ops: &O) -> (result:
    u32)
    requires
        ops.total(),
    ensures
        result == spec_adjusted_radius(ops, radius, direction),
{
    match direction {
        ShortcutDirection::Decrease => scalar::max(
            ops.quotient(radius, BRUSH_RADIUS_STEP),
            MIN_BRUSH_RADIUS_POINTS,
        ),
        ShortcutDirection::Increase => scalar::min(
            ops.product(radius, BRUSH_RADIUS_STEP),
            MAX_BRUSH_RADIUS_POINTS,
        ),
    }
}

/// Texts with a stroke between them.
pub open spec fn joined(texts: Seq<Seq<char>>) -> Seq<char>
    decreases texts.len(),
{
    if texts.len() == 0 {
        Seq::empty()
    } else if texts.len() == 1 {
        texts[0]
    } else {
        joined(texts.drop_last()) + " / "@ + texts.last()
    }
}

pub open spec fn views(texts: Seq<String>) -> Seq<Seq<char>> {
    texts.map_values(|text: String| text@)
}

/// Writes the names of shortcuts one after the other.
pub fn shortcut_hint(names: &Vec<String>) -> (result: String)
    ensures
        result@ == joined(views(names@)),
{
    if names.len() == 0 {
        proof {
            reveal_strlit("");
        }
        let empty = "".to_owned();
        assert(empty@ =~= Seq::empty());
        return empty;
    }
    let mut hint = names[0].clone();
    let mut i: usize = 1;
    assert(views(names@).take(1) =~= seq![names@[0]@]);
    while i < names.len()
        invariant
            1 <= i <= names@.len(),
            hint@ == joined(views(names@).take(i as int)),
        decreases names@.len() - i,
    {
        hint.append(" / ");
        hint.append(names[i].as_str());
        proof {
            let next = views(names@).take(i + 1);
            assert(next.drop_last() =~= views(names@).take(i as int));
            assert(next.last() == names@[i as int]@);
        }
        i += 1;
    }
    assert(views(names@).take(i as int) =~= views(names@));
    hint
}

/// A label with the names of its shortcuts in parentheses.
pub fn shortcut_label(label: &str, hint: &str) -> (result: String)
    ensures
        result@ == label@ + " ("@ + hint@ + ")"@,
{
    let mut text = label.to_owned();
    text.append(" (");
    text.append(hint);
    text.append(")");
    text
}

pub fn shortcut_tooltip(hint: &str) -> (result: String)
    ensures
        result@ == "Shortcut: "@ + hint@,
{
    let mut text = "Shortcut: ".to_owned();
    text.append(hint);
    text
}

pub open spec fn spec_adaptive_target_edge_length<O: Arithmetic>(
    ops: &O,
    radius: u32,
    detail: u32,
    units_per_point: u32,
) -> u32 {
    scalar::greatest(
        ops.spec_product(
            radius,
            scalar::clamped(detail, FINEST_ADAPTIVE_DETAIL, COARSEST_ADAPTIVE_DETAIL),
        ),
        units_per_point,
    )
}

/// How long edges under a brush are to be: a share of its radius, and never less than a point of
/// the screen.
pub fn adaptive_target_edge_length<O: Arithmetic>(
    radius: u32,
    detail: u32,
    units_per_point: u32,
    ops: &O,
) -> (result: u32)
    requires
        ops.total(),
    ensures
        result == spec_adaptive_target_edge_length(ops, radius, detail, units_per_point),
        !scalar::nan(units_per_point) ==> scalar::le(units_per_point, result),
{
    scalar::max(
        ops.product(
            radius,
            scalar::clamp(detail, FINEST_ADAPTIVE_DETAIL, COARSEST_ADAPTIVE_DETAIL),
        ),
        units_per_point,
    )
}

/// The buttons of a pointer.
#[derive(Clone, Copy, Debug, PartialEq, Eq, Structural)]
pub enum PointerButton {
    Primary,
    Secondary,
    Middle,
    Extra1,
    Extra2,
}

#[derive(Clone, Copy, Debug, PartialEq, Eq, Structural)]
pub enum NavigationAction {
    Pan,
    Orbit,
}

pub open spec fn navigates(button: PointerButton) -> Option<NavigationAction> {
    match button {
        PointerButton::Secondary => Some(NavigationAction::Pan),
        PointerButton::Middle => Some(NavigationAction::Orbit),
        _ => None,
    }
}

/// What dragging with a button does to the orbit.
pub fn navigation_action(button: PointerButton) -> (result: Option<NavigationAction>)
    ensures
        result == navigates(button),
{
    match button {
        PointerButton::Secondary => Some(NavigationAction::Pan),
        PointerButton::Middle => Some(NavigationAction::Orbit),
        _ => None,
    }
}

/// The keys of flight that are down.
#[derive(Clone, Copy, Debug, Default, PartialEq, Eq, Structural)]
pub struct FlyKeyState {
    pub w: bool,
    pub s: bool,
    pub a: bool,
    pub d: bool,
    pub shift: bool,
    pub space: bool,
}

pub open spec fn axis_of(positive: bool, negative: bool) -> u32 {
    if positive == negative {
        scalar::ZERO
    } else if positive {
        scalar::ONE
    } else {
        MINUS_ONE
    }
}

fn axis(positive: bool, negative: bool) -> (result: u32)
    ensures
        result == axis_of(positive, negative),
{
    if positive == negative {
        scalar::ZERO
    } else if positive {
        scalar::ONE
    } else {
        MINUS_ONE
    }
}

/// Where the keys of flight go. Keys against each other come to nothing.
pub fn fly_movement(keys: FlyKeyState) -> (result: FlyMovement)
    ensures
        result == (FlyMovement {
            forward: axis_of(keys.w, keys.s),
            right: axis_of(keys.d, keys.a),
            up: axis_of(keys.space, keys.shift),
        }),
{
    FlyMovement {
        forward: axis(keys.w, keys.s),
        right: axis(keys.d, keys.a),
        up: axis(keys.space, keys.shift),
    }
}

pub open spec fn spec_fly_look_delta<O: Arithmetic>(
    ops: &O,
    raw_motion: Option<ScreenPoint>,
    pointer_delta: ScreenPoint,
    pixels_per_point: u32,
) -> ScreenPoint {
    match raw_motion {
        None => pointer_delta,
        Some(motion) => if scalar::finite(pixels_per_point) && scalar::lt(
            scalar::ZERO,
            pixels_per_point,
        ) {
            ScreenPoint {
                x: ops.spec_quotient(motion.x, pixels_per_point),
                y: ops.spec_quotient(motion.y, pixels_per_point),
            }
        } else {
            motion
        },
    }
}

/// How far the mouse has moved: what it says itself, in points, and else what the pointer did.
pub fn fly_look_delta<O: Arithmetic>(
    raw_motion: Option<ScreenPoint>,
    pointer_delta: ScreenPoint,
    pixels_per_point: u32,
    ops: &O,
) -> (result: ScreenPoint)
    requires
        ops.total(),
    ensures
        result == spec_fly_look_delta(ops, raw_motion, pointer_delta, pixels_per_point),
{
    match raw_motion {
        None => pointer_delta,
        Some(motion) => if scalar::is_finite(pixels_per_point) && scalar::is_less(
            scalar::ZERO,
            pixels_per_point,
        ) {
            ScreenPoint {
                x: ops.quotient(motion.x, pixels_per_point),
                y: ops.quotient(motion.y, pixels_per_point),
            }
        } else {
            motion
        },
    }
}

/// What a turn of the wheel is counted in.
#[derive(Clone, Copy, Debug, PartialEq, Eq, Structural)]
pub enum MouseWheelUnit {
    Point,
    Line,
    Page,
}

pub open spec fn spec_wheel_delta_points<O: Arithmetic>(
    ops: &O,
    unit: MouseWheelUnit,
    delta_y: u32,
    viewport_height: u32,
) -> u32 {
    ops.spec_product(
        delta_y,
        match unit {
            MouseWheelUnit::Point => scalar::ONE,
            MouseWheelUnit::Line => WHEEL_POINTS_PER_LINE,
            MouseWheelUnit::Page => scalar::greatest(viewport_height, scalar::ZERO),
        },
    )
}

pub fn wheel_delta_points<O: Arithmetic>(
    unit: MouseWheelUnit,
    delta_y: u32,
    viewport_height: u32,
    ops: &O,
) -> (result: u32)
    requires
        ops.total(),
    ensures
        result == spec_wheel_delta_points(ops, unit, delta_y, viewport_height),
{
    let scale = match unit {
        MouseWheelUnit::Point => scalar::ONE,
        MouseWheelUnit::Line => WHEEL_POINTS_PER_LINE,
        MouseWheelUnit::Page => scalar::max(viewport_height, scalar::ZERO),
    };
    ops.product(delta_y, scale)
}

/// What turns of the wheel come to together, those that are finite added up.
pub open spec fn turned<O: Arithmetic>(
    ops: &O,
    turns: Seq<(MouseWheelUnit, u32)>,
    viewport_height: u32,
) -> u32
    decreases turns.len(),
{
    if turns.len() == 0 {
        scalar::ZERO
    } else {
        let before = turned(ops, turns.drop_last(), viewport_height);
        let points = spec_wheel_delta_points(
            ops,
            turns.last().0,
            turns.last().1,
            viewport_height,
        );
        if scalar::finite(points) {
            ops.spec_sum(before, points)
        } else {
            before
        }
    }
}

/// How far the wheel was turned in a frame, within bounds.
pub fn fly_wheel_points<O: Arithmetic>(
    turns: &Vec<(MouseWheelUnit, u32)>,
    viewport_height: u32,
    ops: &O,
) -> (result: u32)
    requires
        ops.total(),
    ensures
        result == scalar::clamped(
            turned(ops, turns@, viewport_height),
            MIN_FLY_WHEEL_POINTS,
            MAX_FLY_WHEEL_POINTS,
        ),
{
    let mut total: u32 = scalar::ZERO;
    let mut i: usize = 0;
    while i < turns.len()
        invariant
            i <= turns@.len(),
            ops.total(),
            total == turned(ops, turns@.take(i as int), viewport_height),
        decreases turns@.len() - i,
    {
        assert(turns@.take(i + 1).drop_last() =~= turns@.take(i as int));
        let (unit, delta_y) = turns[i];
        let points = wheel_delta_points(unit, delta_y, viewport_height, ops);
        if scalar::is_finite(points) {
            total = ops.sum(total, points);
        }
        i += 1;
    }
    assert(turns@.take(i as int) =~= turns@);
    scalar::clamp(total, MIN_FLY_WHEEL_POINTS, MAX_FLY_WHEEL_POINTS)
}

/// What it depends on whether a flight may take the pointer.
#[derive(Clone, Copy, Debug, PartialEq, Eq, Structural)]
pub struct FlyCaptureEligibility {
    pub mode: CameraMode,
    pub viewport_hovered: bool,
    pub focused: bool,
    pub has_mesh: bool,
    pub stroke_active: bool,
    pub mesh_job_active: bool,
    pub modal_active: bool,
}

pub open spec fn may_capture(state: FlyCaptureEligibility) -> bool {
    &&& state.mode is Fly
    &&& state.viewport_hovered && state.focused && state.has_mesh
    &&& !state.stroke_active && !state.mesh_job_active && !state.modal_active
}

pub fn fly_capture_eligible(state: FlyCaptureEligibility) -> (result: bool)
    ensures
        result == may_capture(state),
{
    state.mode == CameraMode::Fly && state.viewport_hovered && state.focused && state.has_mesh
        && !state.stroke_active && !state.mesh_job_active && !state.modal_active
}

/// Whether keys belong to the flight rather than to shortcuts.
pub fn fly_shortcuts_suppressed(mode: CameraMode, captured: bool, secondary_button_down: bool)
 -> (result: bool)
    ensures
        result == (captured || (mode is Fly && secondary_button_down)),
{
    captured || (mode == CameraMode::Fly && secondary_button_down)
}

/// Whether a flight has to give the pointer back.
pub fn fly_capture_should_release(
    captured: bool,
    secondary_button_down: bool,
    escape_pressed: bool,
    focused: bool,
    state_valid: bool,
) -> (result: bool)
    ensures
        result == (captured && !(secondary_button_down && !escape_pressed && focused
            && state_valid)),
{
    captured && (!secondary_button_down || escape_pressed || !focused || !state_valid)
}

pub open spec fn spec_fly_movement_mode_label(mode: FlyMovementMode) -> Seq<char> {
    match mode {
        FlyMovementMode::Level => "Level (Minecraft)"@,
        FlyMovementMode::Free => "Free flight"@,
    }
}

pub fn fly_movement_mode_label(mode: FlyMovementMode) -> (result: &'static str)
    ensures
        result@ == spec_fly_movement_mode_label(mode),
{
    match mode {
        FlyMovementMode::Level => "Level (Minecraft)",
        FlyMovementMode::Free => "Free flight",
    }
}

/// What is said about the view.
pub open spec fn view_help(mode: CameraMode, fly_movement_mode: FlyMovementMode) -> Seq<char> {
    match (mode, fly_movement_mode) {
        (CameraMode::Orbit, _) => "RMB drag pan · MMB drag orbit · Wheel zoom"@,
        (
            CameraMode::Fly,
            FlyMovementMode::Level,
        ) => "Hold RMB · Mouse look · WASD horizontal · Shift/Space down/up · Wheel speed · Esc release"@,
        (
            CameraMode::Fly,
            FlyMovementMode::Free,
        ) => "Hold RMB · Mouse look · W/S follow look · A/D strafe · Shift/Space down/up · Wheel speed · Esc release"@,
    }
}

/// A short help on sculpting and on the view.
pub fn quick_controls_copy(mode: CameraMode, fly_movement_mode: FlyMovementMode) -> (result: (
    &'static str,
    &'static str,
))
    ensures
        result.0@ == "LMB drag · Shift smooth · Ctrl invert"@,
        result.1@ == view_help(mode, fly_movement_mode),
{
    let sculpting = "LMB drag · Shift smooth · Ctrl invert";
    match mode {
        CameraMode::Orbit => (sculpting, "RMB drag pan · MMB drag orbit · Wheel zoom"),
        CameraMode::Fly => match fly_movement_mode {
            FlyMovementMode::Level => (
                sculpting,
                "Hold RMB · Mouse look · WASD horizontal · Shift/Space down/up · Wheel speed · Esc release",
            ),
            FlyMovementMode::Free => (
                sculpting,
                "Hold RMB · Mouse look · W/S follow look · A/D strafe · Shift/Space down/up · Wheel speed · Esc release",
            ),
        },
    }
}

pub open spec fn view_summary(mode: CameraMode, fly_movement_mode: FlyMovementMode) -> Seq<char> {
    match (mode, fly_movement_mode) {
        (CameraMode::Orbit, _) => "RMB: pan · MMB: orbit · Wheel: zoom"@,
        (
            CameraMode::Fly,
            FlyMovementMode::Level,
        ) => "Hold RMB: look/fly · WASD: horizontal · Shift/Space: height · Wheel: speed"@,
        (
            CameraMode::Fly,
            FlyMovementMode::Free,
        ) => "Hold RMB: look/fly · W/S: follow look · A/D: strafe · Shift/Space: height · Wheel: speed"@,
    }
}

/// The line on the view at the foot of the tools.
pub fn view_controls_summary(mode: CameraMode, fly_movement_mode: FlyMovementMode) -> (result:
    &'static str)
    ensures
        result@ == view_summary(mode, fly_movement_mode),
{
    match mode {
        CameraMode::Orbit => "RMB: pan · MMB: orbit · Wheel: zoom",
        CameraMode::Fly => match fly_movement_mode {
            FlyMovementMode::Level => "Hold RMB: look/fly · WASD: horizontal · Shift/Space: height · Wheel: speed",
            FlyMovementMode::Free => "Hold RMB: look/fly · W/S: follow look · A/D: strafe · Shift/Space: height · Wheel: speed",
        },
    }
}

/// Whether the pointer is there for sculpting.
pub fn sculpting_allowed(fly_captured: bool) -> (result: bool)
    ensures
        result == !fly_captured,
{
    !fly_captured
}

/// The tool that is used: Shift makes every tool but Mask smooth.
pub open spec fn tool_with(tool: SculptTool, modifiers: Modifiers) -> SculptTool {
    if modifiers.shift && !(tool is Mask) {
        SculptTool::Smooth
    } else {
        tool
    }
}

pub fn effective_tool(tool: SculptTool, modifiers: Modifiers) -> (result: SculptTool)
    ensures
        result == tool_with(tool, modifiers),
{
    if modifiers.shift && tool != SculptTool::Mask {
        SculptTool::Smooth
    } else {
        tool
    }
}

pub open spec fn tool_text(tool: SculptTool, brush_invert: bool, modifiers: Modifiers) -> Seq<char> {
    let used = tool_with(tool, modifiers);
    let named = if used != tool {
        used.spec_label() + " · temporary"@
    } else {
        used.spec_label()
    };
    if brush_invert != modifiers.ctrl {
        named + " · inverted"@
    } else {
        named
    }
}

/// What is said about the tool that is used.
pub fn active_tool_text(tool: SculptTool, brush_invert: bool, modifiers: Modifiers) -> (result:
    String)
    ensures
        result@ == tool_text(tool, brush_invert, modifiers),
{
    let effective = effective_tool(tool, modifiers);
    let mut text = effective.label().to_owned();
    if effective != tool {
        text.append(" · temporary");
    }
    if brush_invert != modifiers.ctrl {
        text.append(" · inverted");
    }
    text
}

/// A color, in red, green and blue.
#[derive(Clone, Copy, Debug, PartialEq, Eq, Structural)]
pub struct Color {
    pub red: u8,
    pub green: u8,
    pub blue: u8,
}

pub open spec fn cursor_color(tool: SculptTool, brush_invert: bool, modifiers: Modifiers) -> Color {
    if brush_invert != modifiers.ctrl {
        Color { red: 238, green: 128, blue: 92 }
    } else if tool_with(tool, modifiers) != tool {
        Color { red: 166, green: 132, blue: 245 }
    } else {
        Color { red: 115, green: 205, blue: 255 }
    }
}

/// The color of the cursor, by which an inverted brush and a temporary tool can be told.
pub fn brush_cursor_color(tool: SculptTool, brush_invert: bool, modifiers: Modifiers) -> (result:
    Color)
    ensures
        result == cursor_color(tool, brush_invert, modifiers),
{
    if brush_invert != modifiers.ctrl {
        Color { red: 238, green: 128, blue: 92 }
    } else if effective_tool(tool, modifiers) != tool {
        Color { red: 166, green: 132, blue: 245 }
    } else {
        Color { red: 115, green: 205, blue: 255 }
    }
}

/// The width of one of two items side by side.
pub fn two_column_item_width<O: Arithmetic>(available_width: u32, item_spacing: u32, ops: &O)
 -> (result: u32)
    requires
        ops.total(),
    ensures
        result == scalar::greatest(
            ops.spec_quotient(ops.spec_difference(available_width, item_spacing), scalar::TWO),
            scalar::ONE,
        ),
{
    scalar::max(
        ops.quotient(ops.difference(available_width, item_spacing), scalar::TWO),
        scalar::ONE,
    )
}

/// What is said of a job that panicked with or without a text.
pub fn panic_message(payload: Option<String>) -> (result: String)
    ensures
        result@ == match payload {
            Some(text) => text@,
            None => "mesh operation panicked"@,
        },
{
    match payload {
        Some(text) => text,
        None => "mesh operation panicked".to_owned(),
    }
}

/// A key turned against itself flies nowhere, and turning a key round turns the flight round.
pub proof fn keys_against_each_other_cancel(positive: bool, negative: bool)
    ensures
        axis_of(positive, positive) == scalar::ZERO,
        positive != negative ==> axis_of(positive, negative) == scalar::negated(
            axis_of(negative, positive),
        ),
{
}

/// Inverting a brush that Ctrl inverts gives the plain brush back.
pub proof fn ctrl_undoes_an_inverted_brush(tool: SculptTool, modifiers: Modifiers)
    ensures
        tool_text(tool, !modifiers.ctrl, modifiers) == tool_text(
            tool,
            true,
            Modifiers { ctrl: false, ..modifiers },
        ),
        tool_text(tool, modifiers.ctrl, modifiers) == tool_text(
            tool,
            false,
            Modifiers { ctrl: false, ..modifiers },
        ),
{
}

} // verus!
