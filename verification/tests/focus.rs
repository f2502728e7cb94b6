use ui_focus::click_edge;
use ui_focus::focus_pass;
use ui_focus::ui_focus_system;
use ui_focus::CursorPosition;
use ui_focus::CursorSource;
use ui_focus::FocusPolicy;
use ui_focus::Interaction;
use ui_focus::MouseButtonState;
use ui_focus::TouchEvent;
use ui_focus::TouchPhase;
use ui_focus::UiNode;

const NODE_SIZE: i32 = 5;

/// Drives the focus pass frame by frame the way the engine does: the input
/// state is maintained across frames, and edge flags are cleared after each
/// step.
struct TestApp {
    nodes: Vec<UiNode>,
    cursor_position: Option<CursorPosition>,
    just_pressed: bool,
    pressed: bool,
    touch_events: Vec<TouchEvent>,
}

impl TestApp {
    fn new() -> TestApp {
        TestApp {
            nodes: Vec::new(),
            cursor_position: None,
            just_pressed: false,
            pressed: false,
            touch_events: Vec::new(),
        }
    }

    fn spawn_node_entity_at(&mut self, x: i32, y: i32) -> usize {
        self.spawn_node_entity_with_z_at(x, y, 0, None)
    }

    fn spawn_node_entity_with_z_at(
        &mut self,
        x: i32,
        y: i32,
        z: i32,
        focus_policy: Option<FocusPolicy>,
    ) -> usize {
        self.nodes.push(UiNode {
            x,
            y,
            z,
            width: NODE_SIZE,
            height: NODE_SIZE,
            clip: None,
            focus_policy,
            interaction: Interaction::Idle,
        });
        self.nodes.len() - 1
    }

    fn set_cursor_position(&mut self, cursor_position: Option<(i32, i32)>) {
        self.cursor_position = cursor_position.map(|(x, y)| CursorPosition { x, y });
    }

    fn set_screen_touched(&mut self) {
        self.touch_events.push(TouchEvent {
            phase: TouchPhase::Ended,
            id: 0,
        });
    }

    fn set_mouse_clicked(&mut self) {
        if !self.pressed {
            self.just_pressed = true;
        }
        self.pressed = true;
    }

    fn set_mouse_released(&mut self) {
        self.pressed = false;
    }

    fn run_step(&mut self) {
        let mouse = MouseButtonState {
            just_pressed: self.just_pressed,
            pressed: self.pressed,
        };
        let clicked = click_edge(&mouse, &self.touch_events);
        focus_pass(&mut self.nodes, self.cursor_position, clicked);
        self.just_pressed = false;
        self.touch_events.clear();
    }

    fn get_interaction(&self, entity: usize) -> &Interaction {
        &self.nodes[entity].interaction
    }
}

#[test]
fn no_cursor_leaves_node_idle() {
    let mut app = TestApp::new();
    let entity = app.spawn_node_entity_at(10, 10);

    app.set_cursor_position(None);
    app.run_step();

    assert_eq!(&Interaction::Idle, app.get_interaction(entity));
}

#[test]
fn no_cursor_leaves_node_idle_even_when_clicked() {
    let mut app = TestApp::new();
    let entity = app.spawn_node_entity_at(10, 10);

    app.set_cursor_position(None);
    app.set_mouse_clicked();
    app.run_step();

    assert_eq!(&Interaction::Idle, app.get_interaction(entity));
}

#[test]
fn cursor_outside_node_leaves_it_idle() {
    let mut app = TestApp::new();
    let entity = app.spawn_node_entity_at(10, 10);

    app.set_cursor_position(Some((0, 0)));
    app.run_step();

    assert_eq!(&Interaction::Idle, app.get_interaction(entity));
}

#[test]
fn cursor_over_node_hovers_it() {
    let mut app = TestApp::new();
    let entity = app.spawn_node_entity_at(10, 10);

    app.set_cursor_position(Some((10, 10)));
    app.run_step();

    assert_eq!(&Interaction::Hovered, app.get_interaction(entity));
}

#[test]
fn hovered_then_not_hovered_resets_to_idle() {
    let mut app = TestApp::new();
    let entity = app.spawn_node_entity_at(10, 10);

    app.set_cursor_position(Some((10, 10)));
    app.run_step();
    assert_eq!(&Interaction::Hovered, app.get_interaction(entity));

    app.set_cursor_position(Some((0, 0)));
    app.run_step();
    assert_eq!(&Interaction::Idle, app.get_interaction(entity));
}

#[test]
fn hovered_then_no_cursor_resets_to_idle() {
    let mut app = TestApp::new();
    let entity = app.spawn_node_entity_at(10, 10);

    app.set_cursor_position(Some((10, 10)));
    app.run_step();
    assert_eq!(&Interaction::Hovered, app.get_interaction(entity));

    app.set_cursor_position(None);
    app.run_step();
    assert_eq!(&Interaction::Idle, app.get_interaction(entity));
}

#[test]
fn mouse_press_over_node_clicks_it() {
    let mut app = TestApp::new();
    let entity = app.spawn_node_entity_at(10, 10);

    app.set_cursor_position(Some((10, 10)));
    app.set_mouse_clicked();
    app.run_step();

    assert_eq!(&Interaction::Clicked, app.get_interaction(entity));
}

#[test]
fn touch_release_over_node_clicks_it() {
    let mut app = TestApp::new();
    let entity = app.spawn_node_entity_at(10, 10);

    app.set_cursor_position(Some((10, 10)));
    app.set_screen_touched();
    app.run_step();

    assert_eq!(&Interaction::Clicked, app.get_interaction(entity));
}

#[test]
fn touch_release_away_from_node_leaves_it_idle() {
    let mut app = TestApp::new();
    let entity = app.spawn_node_entity_at(10, 10);

    app.set_cursor_position(Some((0, 0)));
    app.set_screen_touched();
    app.run_step();

    assert_eq!(&Interaction::Idle, app.get_interaction(entity));
}

#[test]
fn stacked_nodes_without_policy_block() {
    let mut app = TestApp::new();
    let background_entity = app.spawn_node_entity_with_z_at(10, 10, 0, None);
    let foreground_entity = app.spawn_node_entity_with_z_at(10, 10, 5, None);

    app.set_cursor_position(Some((10, 10)));
    app.set_mouse_clicked();
    app.run_step();

    assert_eq!(&Interaction::Clicked, app.get_interaction(foreground_entity));
    assert_eq!(&Interaction::Idle, app.get_interaction(background_entity));
}

#[test]
fn stacked_nodes_with_block_policy_block() {
    let mut app = TestApp::new();
    let background_entity = app.spawn_node_entity_with_z_at(10, 10, 0, Some(FocusPolicy::Block));
    let foreground_entity = app.spawn_node_entity_with_z_at(10, 10, 5, Some(FocusPolicy::Block));

    app.set_cursor_position(Some((10, 10)));
    app.set_mouse_clicked();
    app.run_step();

    assert_eq!(&Interaction::Clicked, app.get_interaction(foreground_entity));
    assert_eq!(&Interaction::Idle, app.get_interaction(background_entity));
}

#[test]
fn stacked_nodes_with_pass_policy_forward() {
    let mut app = TestApp::new();
    let background_entity = app.spawn_node_entity_with_z_at(10, 10, 0, Some(FocusPolicy::Pass));
    let foreground_entity = app.spawn_node_entity_with_z_at(10, 10, 5, Some(FocusPolicy::Pass));

    app.set_cursor_position(Some((10, 10)));
    app.set_mouse_clicked();
    app.run_step();

    assert_eq!(&Interaction::Clicked, app.get_interaction(foreground_entity));
    assert_eq!(&Interaction::Clicked, app.get_interaction(background_entity));
}

#[test]
fn equal_depth_keeps_collection_order() {
    let mut app = TestApp::new();
    let first_entity = app.spawn_node_entity_with_z_at(10, 10, 3, Some(FocusPolicy::Block));
    let second_entity = app.spawn_node_entity_with_z_at(10, 10, 3, Some(FocusPolicy::Block));

    app.set_cursor_position(Some((10, 10)));
    app.run_step();

    assert_eq!(&Interaction::Hovered, app.get_interaction(first_entity));
    assert_eq!(&Interaction::Idle, app.get_interaction(second_entity));
}

#[test]
fn hover_one_node_then_click_the_other_where_both_overlap() {
    let mut app = TestApp::new();
    let background_node_position = 8;
    let background_entity = app.spawn_node_entity_with_z_at(
        background_node_position,
        background_node_position,
        0,
        Some(FocusPolicy::Block),
    );
    let foreground_entity = app.spawn_node_entity_with_z_at(10, 10, 5, Some(FocusPolicy::Block));

    app.set_cursor_position(Some((6, 6)));

    app.run_step();

    assert_eq!(&Interaction::Idle, app.get_interaction(foreground_entity));
    assert_eq!(&Interaction::Hovered, app.get_interaction(background_entity));

    app.set_cursor_position(Some((background_node_position, background_node_position)));
    app.set_mouse_clicked();

    app.run_step();

    assert_eq!(&Interaction::Clicked, app.get_interaction(foreground_entity));
    assert_eq!(&Interaction::Idle, app.get_interaction(background_entity));
}

#[test]
fn click_then_move_away_and_release_mouse_button() {
    let mut app = TestApp::new();
    let entity = app.spawn_node_entity_at(10, 10);

    app.set_cursor_position(Some((10, 10)));
    app.set_mouse_clicked();

    app.run_step();
    assert_eq!(&Interaction::Clicked, app.get_interaction(entity));

    app.set_cursor_position(Some((0, 0)));

    app.run_step();
    assert_eq!(&Interaction::Idle, app.get_interaction(entity));

    app.set_mouse_released();

    app.run_step();
    assert_eq!(&Interaction::Idle, app.get_interaction(entity));
}

#[test]
fn click_and_keep_pressed() {
    let mut app = TestApp::new();
    let entity = app.spawn_node_entity_at(10, 10);
    app.set_cursor_position(Some((10, 10)));
    app.set_mouse_clicked();

    app.run_step();
    assert_eq!(&Interaction::Clicked, app.get_interaction(entity));

    app.run_step();
    assert_eq!(&Interaction::Clicked, app.get_interaction(entity));
}

#[test]
fn click_and_release() {
    let mut app = TestApp::new();
    let entity = app.spawn_node_entity_at(10, 10);
    app.set_cursor_position(Some((10, 10)));

    app.set_mouse_clicked();
    app.run_step();
    assert_eq!(&Interaction::Clicked, app.get_interaction(entity));

    app.set_mouse_released();
    app.run_step();
    assert_eq!(&Interaction::Hovered, app.get_interaction(entity));
}

#[test]
fn click_and_release_in_single_frame() {
    let mut app = TestApp::new();
    let entity = app.spawn_node_entity_at(10, 10);
    app.set_cursor_position(Some((10, 10)));

    app.set_mouse_clicked();
    app.set_mouse_released();
    app.run_step();
    assert_eq!(&Interaction::Clicked, app.get_interaction(entity));

    app.run_step();
    assert_eq!(&Interaction::Hovered, app.get_interaction(entity));
}

#[test]
fn running_the_pass_twice_with_unchanged_input_is_idempotent() {
    let mut app = TestApp::new();
    let hovered_entity = app.spawn_node_entity_at(10, 10);
    let idle_entity = app.spawn_node_entity_at(100, 100);

    app.set_cursor_position(Some((10, 10)));
    app.run_step();
    let first = (
        *app.get_interaction(hovered_entity),
        *app.get_interaction(idle_entity),
    );

    app.run_step();
    let second = (
        *app.get_interaction(hovered_entity),
        *app.get_interaction(idle_entity),
    );

    assert_eq!(first, second);
    assert_eq!(Interaction::Hovered, first.0);
    assert_eq!(Interaction::Idle, first.1);
}

/// A deterministic cursor source, standing in for the windowing layer.
#[derive(Debug, Default)]
struct WindowsDouble {
    cursor_position: Option<CursorPosition>,
}

impl CursorSource for WindowsDouble {
    fn get_cursor_position(&self) -> Option<CursorPosition> {
        self.cursor_position
    }
}

#[test]
fn ui_focus_system_reads_the_cursor_source() {
    let windows = WindowsDouble {
        cursor_position: Some(CursorPosition { x: 10, y: 10 }),
    };
    let mouse = MouseButtonState {
        just_pressed: false,
        pressed: false,
    };
    let touches: Vec<TouchEvent> = Vec::new();
    let mut nodes = vec![UiNode {
        x: 10,
        y: 10,
        z: 0,
        width: NODE_SIZE,
        height: NODE_SIZE,
        clip: None,
        focus_policy: None,
        interaction: Interaction::Clicked,
    }];

    ui_focus_system(&windows, &mouse, &touches, &mut nodes);

    assert_eq!(Interaction::Hovered, nodes[0].interaction);
}

#[test]
fn ui_focus_system_with_no_cursor_resets_everything() {
    let windows = WindowsDouble {
        cursor_position: None,
    };
    let mouse = MouseButtonState {
        just_pressed: true,
        pressed: true,
    };
    let touches: Vec<TouchEvent> = Vec::new();
    let mut nodes = vec![UiNode {
        x: 10,
        y: 10,
        z: 0,
        width: NODE_SIZE,
        height: NODE_SIZE,
        clip: None,
        focus_policy: None,
        interaction: Interaction::Clicked,
    }];

    ui_focus_system(&windows, &mouse, &touches, &mut nodes);

    assert_eq!(Interaction::Idle, nodes[0].interaction);
}
