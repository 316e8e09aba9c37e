//! The game from frame to frame: menus, score, and what to show.
//!
//! The driver is told what the player does (keys held, where the mouse is,
//! how long the last frame took) and decides what follows.  It neither
//! reads keys nor draws: who does tells it the one and asks it for the
//! other.

use crate::ai::{control_far_paddle, follows_ball};
use crate::render::camera::Camera;
use crate::math::{Directions, Point};
use crate::motion::{MotionResult, MotionTicker};
use crate::render::renderer::{Brightness, Renderer};
use crate::nearest::is_nearest_single;
use crate::scalar::{
    is_quotient, is_sum, quotient, sum, Arithmetic, Real, ONE_BITS, TWO_BITS, ZERO_BITS,
};
use crate::scene::{Obstacle, Plane, Scene, Sphere, THREE_TENTHS_BITS};
use vstd::prelude::*;

verus! {

/// How often a ray is reflected at most.
pub const MAX_DEPTH: usize = 5;

/// How many samples are taken per pixel.
pub const SAMPLES_PER_PIXEL: usize = 1;

/// The bits of the single nearest to 0.2: for how long after a choice the
/// menu takes no other.
pub const MENU_CHANGE_TIMEOUT_BITS: u32 = 0x3e4c_cccd;

/// The bits of 1: for how long a hit or a miss is shown.
pub const COLLISION_NOTICE_TIMEOUT_BITS: u32 = 0x3f80_0000;

/// The bits of the single nearest to 0.2: how far from the middle of the
/// window a touch must be to count as one to a side.
pub const TOUCH_MARGIN_BITS: u32 = 0x3e4c_cccd;

/// The bits of the single nearest to -0.2.
pub const MINUS_TOUCH_MARGIN_BITS: u32 = 0xbe4c_cccd;

/// What a tick meant for the game.
#[derive(Clone, Copy, Debug, PartialEq, Eq, Structural)]
pub enum AdvanceResult {
    PlayerHit,
    AIHit,
    PlayerMiss,
    AIMiss,
    Nothing,
}

/// What a collision means for the game: a ball at the near wall is lost by
/// the player, one at the far wall by the other side, and a paddle that
/// meets the ball has hit it.
pub open spec fn outcome(motion: MotionResult) -> AdvanceResult {
    match motion {
        MotionResult::Colision(Obstacle::Plane(Plane::Near)) => AdvanceResult::PlayerMiss,
        MotionResult::Colision(Obstacle::Plane(Plane::Far)) => AdvanceResult::AIMiss,
        MotionResult::Colision(Obstacle::Sphere(Sphere::NearPaddle)) => AdvanceResult::PlayerHit,
        MotionResult::Colision(Obstacle::Sphere(Sphere::FarPaddle)) => AdvanceResult::AIHit,
        _ => AdvanceResult::Nothing,
    }
}

/// What the player can ask for.
#[derive(Clone, Copy, Debug, PartialEq, Eq, Structural)]
pub enum Action {
    NewGame,
    Exit,
    Pause,
    EndGame,
    Continue,
    MainMenu,
}

/// What is on the screen.
#[derive(Clone, Copy, Debug, PartialEq, Eq, Structural)]
pub enum UIState {
    MainMenu,
    Hud,
    PauseMenu,
    EndGame,
}

impl UIState {
    /// What the items of the menu ask for, from the first to the last.  The
    /// game itself has no menu.
    pub open spec fn menu(self) -> Seq<Action> {
        match self {
            UIState::MainMenu => seq![Action::NewGame, Action::Exit],
            UIState::Hud => seq![],
            UIState::PauseMenu => seq![Action::Continue, Action::EndGame, Action::Exit],
            UIState::EndGame => seq![Action::MainMenu],
        }
    }

    /// What the items of the menu are called, from the first to the last.
    pub open spec fn labels(self) -> Seq<Seq<char>> {
        match self {
            UIState::MainMenu => seq!["New game"@, "Exit"@],
            UIState::Hud => seq![],
            UIState::PauseMenu => seq!["Continue"@, "Main menu"@, "Exit"@],
            UIState::EndGame => seq!["Main menu"@],
        }
    }

    /// The number of items of the menu.
    pub fn menu_len(&self) -> (len: usize)
        ensures
            len == self.menu().len(),
    {
        match self {
            UIState::MainMenu => 2,
            UIState::Hud => 0,
            UIState::PauseMenu => 3,
            UIState::EndGame => 1,
        }
    }

    /// The items of the menu: what each is called and what it asks for.
    pub fn menu_items(&self) -> (items: Vec<(&'static str, Action)>)
        ensures
            items@.len() == self.menu().len(),
            forall|k: int| 0 <= k < items@.len() ==> (#[trigger] items@[k]).1 == self.menu()[k],
            forall|k: int| 0 <= k < items@.len() ==> (#[trigger] items@[k]).0@ == self.labels()[k],
    {
        match self {
            UIState::MainMenu => vec![("New game", Action::NewGame), ("Exit", Action::Exit)],
            UIState::Hud => Vec::new(),
            UIState::PauseMenu => vec![
                ("Continue", Action::Continue),
                ("Main menu", Action::EndGame),
                ("Exit", Action::Exit),
            ],
            UIState::EndGame => vec![("Main menu", Action::MainMenu)],
        }
    }

    /// What item `index` of the menu asks for.
    pub fn menu_action(&self, index: usize) -> (action: Action)
        requires
            index < self.menu().len(),
        ensures
            action == self.menu()[index as int],
    {
        match self {
            UIState::MainMenu => if index == 0 {
                Action::NewGame
            } else {
                Action::Exit
            },
            UIState::Hud => Action::Exit,
            UIState::PauseMenu => if index == 0 {
                Action::Continue
            } else if index == 1 {
                Action::EndGame
            } else {
                Action::Exit
            },
            UIState::EndGame => Action::MainMenu,
        }
    }
}

/// A part of the window, as a touch or a click may aim at it.
#[derive(Clone, Copy, Debug, PartialEq, Eq, Structural)]
pub enum TouchDirection {
    Center,
    Left,
    Right,
    Top,
    Bottom,
}

/// Whether the place `(x, y)` lies in the given part of the window.  The
/// middle of the window is `(0, 0)`; x grows to the right and y downwards.
pub open spec fn in_direction(direction: TouchDirection, x: Real, y: Real) -> bool {
    let low = Real { bits: MINUS_TOUCH_MARGIN_BITS };
    let high = Real { bits: TOUCH_MARGIN_BITS };
    match direction {
        TouchDirection::Center => low.at_most(x) && x.at_most(high) && low.at_most(y)
            && y.at_most(high),
        TouchDirection::Left => x.less(low),
        TouchDirection::Right => high.less(x),
        TouchDirection::Top => y.less(low),
        TouchDirection::Bottom => high.less(y),
    }
}

/// Whether the place `pos` lies in the given part of the window.
pub fn is_pos_in_direction(direction: TouchDirection, pos: (Real, Real)) -> (r: bool)
    ensures
        r == in_direction(direction, pos.0, pos.1),
{
    let low = Real::from_bits(MINUS_TOUCH_MARGIN_BITS);
    let high = Real::from_bits(TOUCH_MARGIN_BITS);
    match direction {
        TouchDirection::Center => pos.0.ge(low) && pos.0.le(high) && pos.1.ge(low) && pos.1.le(
            high,
        ),
        TouchDirection::Left => pos.0.lt(low),
        TouchDirection::Right => pos.0.gt(high),
        TouchDirection::Top => pos.1.lt(low),
        TouchDirection::Bottom => pos.1.gt(high),
    }
}

/// What the player does during one frame.
#[derive(Clone, Copy, Debug)]
pub struct Inputs {
    pub escape: bool,
    pub enter: bool,
    pub up: bool,
    pub down: bool,
    pub left: bool,
    pub right: bool,
    /// The mouse button is held, or a finger is on the screen.
    pub mouse_down: bool,
    /// The mouse button went down during this frame.
    pub mouse_pressed: bool,
    /// Where the mouse is, the middle of the window being `(0, 0)` and its
    /// borders at -1 and 1.
    pub mouse_position: (Real, Real),
    /// How long the last frame took.
    pub frame_time: Real,
}

impl Inputs {
    /// The mouse is held in the given part of the window.
    pub open spec fn presses(self, direction: TouchDirection) -> bool {
        self.mouse_down && in_direction(direction, self.mouse_position.0, self.mouse_position.1)
    }

    /// The mouse went down in the given part of the window.
    pub open spec fn clicks(self, direction: TouchDirection) -> bool {
        self.mouse_pressed && in_direction(
            direction,
            self.mouse_position.0,
            self.mouse_position.1,
        )
    }

    /// The player asks for what the chosen item says.
    pub open spec fn confirms(self) -> bool {
        self.enter || self.clicks(TouchDirection::Center)
    }

    /// The player asks for the item before the chosen one.
    pub open spec fn goes_back(self) -> bool {
        self.up || self.clicks(TouchDirection::Top) || self.clicks(TouchDirection::Left)
    }

    /// The player asks for the item after the chosen one.
    pub open spec fn goes_on(self) -> bool {
        self.down || self.clicks(TouchDirection::Bottom) || self.clicks(TouchDirection::Right)
    }

    /// The directions in which the player pushes the paddle.
    pub open spec fn steers(self) -> Directions {
        Directions {
            up: self.up || self.presses(TouchDirection::Top),
            down: self.down || self.presses(TouchDirection::Bottom),
            left: self.left || self.presses(TouchDirection::Left),
            right: self.right || self.presses(TouchDirection::Right),
        }
    }

    /// Whether the mouse is held in the given part of the window.
    pub fn is_direction_pressed(&self, direction: TouchDirection) -> (r: bool)
        ensures
            r == self.presses(direction),
    {
        if !self.mouse_down {
            return false;
        }
        is_pos_in_direction(direction, self.mouse_position)
    }

    /// Whether the mouse went down in the given part of the window.
    pub fn is_direction_clicked(&self, direction: TouchDirection) -> (r: bool)
        ensures
            r == self.clicks(direction),
    {
        if !self.mouse_pressed {
            return false;
        }
        is_pos_in_direction(direction, self.mouse_position)
    }
}

/// The item before `selected` in a menu of `len` items.  Before the first
/// item the count wraps around the whole range of `usize`, not of the menu.
pub open spec fn item_before(selected: usize, len: usize) -> usize {
    (selected.wrapping_sub(1) % len) as usize
}

/// The item after `selected` in a menu of `len` items; after the last comes
/// the first.
pub open spec fn item_after(selected: usize, len: usize) -> usize {
    ((selected + 1) % len as int) as usize
}

/// What the menu makes of the player's inputs.
pub struct Choice {
    /// What the player asked for, if anything.
    pub action: Option<Action>,
    /// The item that is chosen now.
    pub selected: usize,
    /// Whether the menu took an input: it takes no other for a while.
    pub taken: bool,
}

/// What the inputs mean while `state` is on the screen with item
/// `selected` chosen.
///
/// In the game, escape or a click in the middle pauses.  In a menu, enter
/// or a click in the middle asks for what the chosen item says; escape
/// leaves the pause menu; up and down, or a click to a side, choose
/// another item.
pub open spec fn chosen(state: UIState, selected: usize, inputs: Inputs) -> Choice {
    if state == UIState::Hud {
        if inputs.escape || inputs.clicks(TouchDirection::Center) {
            Choice { action: Some(Action::Pause), selected, taken: true }
        } else {
            Choice { action: None, selected, taken: false }
        }
    } else if inputs.confirms() {
        Choice { action: Some(state.menu()[selected as int]), selected, taken: true }
    } else if inputs.escape && state == UIState::PauseMenu {
        Choice { action: Some(Action::Continue), selected, taken: true }
    } else {
        let len = state.menu().len() as usize;
        let first = if inputs.goes_back() {
            item_before(selected, len)
        } else {
            selected
        };
        let second = if inputs.goes_on() {
            item_after(first, len)
        } else {
            first
        };
        Choice { action: None, selected: second, taken: inputs.goes_back() || inputs.goes_on() }
    }
}

/// What is on the screen once `action` has been done.
pub open spec fn screen_after(state: UIState, action: Action) -> UIState {
    match action {
        Action::NewGame => UIState::Hud,
        Action::Exit => state,
        Action::Pause => UIState::PauseMenu,
        Action::EndGame => UIState::EndGame,
        Action::Continue => UIState::Hud,
        Action::MainMenu => UIState::MainMenu,
    }
}

/// Whether `action` opens a menu, whose first item is then the chosen one.
pub open spec fn opens_menu(action: Action) -> bool {
    action == Action::Pause || action == Action::EndGame || action == Action::MainMenu
}

/// The menu decides on the inputs: see [`chosen`].
pub fn choose_item(state: UIState, selected: usize, inputs: &Inputs) -> (choice: Choice)
    requires
        state != UIState::Hud ==> selected < state.menu().len(),
    ensures
        choice == chosen(state, selected, *inputs),
        state != UIState::Hud ==> choice.selected < state.menu().len(),
{
    match state {
        UIState::Hud => {
            if inputs.escape || inputs.is_direction_clicked(TouchDirection::Center) {
                return Choice { action: Some(Action::Pause), selected, taken: true };
            }
            Choice { action: None, selected, taken: false }
        },
        UIState::MainMenu | UIState::PauseMenu | UIState::EndGame => {
            if inputs.enter || inputs.is_direction_clicked(TouchDirection::Center) {
                return Choice {
                    action: Some(state.menu_action(selected)),
                    selected,
                    taken: true,
                };
            }
            if inputs.escape && state == UIState::PauseMenu {
                return Choice { action: Some(Action::Continue), selected, taken: true };
            }
            let len = state.menu_len();
            let mut current = selected;
            let mut taken = false;
            if inputs.up || inputs.is_direction_clicked(TouchDirection::Top)
                || inputs.is_direction_clicked(TouchDirection::Left) {
                current = current.wrapping_sub(1) % len;
                taken = true;
            }
            if inputs.down || inputs.is_direction_clicked(TouchDirection::Bottom)
                || inputs.is_direction_clicked(TouchDirection::Right) {
                current = (current + 1) % len;
                taken = true;
            }
            Choice { action: None, selected: current, taken }
        },
    }
}

/// The game itself: what there is to see and how it moves.
pub struct GameState {
    pub camera: Camera,
    pub scene: Scene,
    pub motion_ticker: MotionTicker,
    pub renderer: Renderer,
}

impl GameState {
    /// A game at its start, for images of `width` by `height` pixels.
    pub open spec fn is_new<A: Arithmetic>(self, unit: &A, width: u16, height: u16) -> bool {
        &&& exists|columns: Real, rows: Real, aspect_ratio: Real|
            #![trigger is_nearest_single(width as u64, columns), is_nearest_single(height as u64, rows), self.camera.is_new(unit, aspect_ratio, Real { bits: TWO_BITS })]
            is_nearest_single(width as u64, columns) && is_nearest_single(height as u64, rows)
                && is_quotient(unit, columns, rows, aspect_ratio) && self.camera.is_new(
                unit,
                aspect_ratio,
                Real { bits: TWO_BITS },
            )
        &&& forall|sphere: Sphere| #[trigger] self.scene.position(sphere) == sphere.start()
        &&& self.motion_ticker.is_at_rest()
        &&& self.renderer.is_set_up(unit, (width, height), SAMPLES_PER_PIXEL, MAX_DEPTH)
    }

    /// A game at its start, for images of `width` by `height` pixels.
    pub fn new<A: Arithmetic>(unit: &A, width: u16, height: u16) -> (state: Self)
        ensures
            state.is_new(unit, width, height),
    {
        let columns = Real::from_integer(width as u64);
        let rows = Real::from_integer(height as u64);
        let aspect_ratio = quotient(unit, columns, rows);
        let state = Self {
            camera: Camera::new(unit, aspect_ratio, Real::two()),
            scene: Scene::new(),
            motion_ticker: MotionTicker::new(),
            renderer: Renderer::new(unit, (width, height), SAMPLES_PER_PIXEL, MAX_DEPTH),
        };
        assert(is_nearest_single(width as u64, columns) && is_nearest_single(height as u64,
            rows,
        ) && state.camera.is_new(unit, aspect_ratio, Real { bits: TWO_BITS }));
        state
    }

    /// `after` is `self` once the game has gone on for `elapsed`, and
    /// `result` is what that meant: everything has moved as a tick moves
    /// it, and the camera has gone with the near paddle.
    pub open spec fn advances<A: Arithmetic>(
        self,
        unit: &A,
        elapsed: Real,
        near_paddle_directions: Directions,
        far_paddle_directions: Directions,
        after: GameState,
        result: AdvanceResult,
    ) -> bool {
        &&& exists|motion: MotionResult| #[trigger]
            self.motion_ticker.ticks(
                unit,
                self.scene,
                elapsed,
                near_paddle_directions,
                far_paddle_directions,
                after.motion_ticker,
                after.scene,
                motion,
            ) && result == outcome(motion)
        &&& after.camera.origin() == (Point {
            x: after.scene.position(Sphere::NearPaddle).x,
            y: after.scene.position(Sphere::NearPaddle).y,
            z: self.camera.origin().z,
        })
        &&& after.camera.same_view_port(self.camera)
        &&& after.renderer == self.renderer
    }

    /// Lets the game go on for `elapsed`.
    pub fn advance<A: Arithmetic>(
        &mut self,
        unit: &A,
        elapsed: Real,
        near_paddle_directions: Directions,
        far_paddle_directions: Directions,
    ) -> (result: AdvanceResult)
        ensures
            old(self).advances(
                unit,
                elapsed,
                near_paddle_directions,
                far_paddle_directions,
                *final(self),
                result,
            ),
    {
        let motion_result = self.motion_ticker.tick(
            unit,
            &mut self.scene,
            elapsed,
            near_paddle_directions,
            far_paddle_directions,
        );
        let near_paddle_pos = self.scene.sphere_pos(Sphere::NearPaddle);
        self.camera.move_origin_to(near_paddle_pos.x(), near_paddle_pos.y());
        proof {
            assert(old(self).motion_ticker.ticks(
                unit,
                old(self).scene,
                elapsed,
                near_paddle_directions,
                far_paddle_directions,
                self.motion_ticker,
                self.scene,
                motion_result,
            ));
        }
        match motion_result {
            MotionResult::Colision(Obstacle::Plane(Plane::Near)) => AdvanceResult::PlayerMiss,
            MotionResult::Colision(Obstacle::Plane(Plane::Far)) => AdvanceResult::AIMiss,
            MotionResult::Colision(Obstacle::Sphere(Sphere::NearPaddle)) => AdvanceResult::PlayerHit,
            MotionResult::Colision(Obstacle::Sphere(Sphere::FarPaddle)) => AdvanceResult::AIHit,
            _ => AdvanceResult::Nothing,
        }
    }

    /// Renders the game into `image`, dimmed by `coef`.
    pub fn render<A: Arithmetic>(&self, unit: &A, coef: Real, image: &mut [[u8; 4]])
        requires
            old(image)@.len() == self.renderer.columns() * self.renderer.rows(),
            self.renderer.columns() >= crate::math::LANES || old(image)@.len() < crate::math::LANES,
        ensures
            self.renderer.renders(
                unit,
                &self.scene,
                self.camera,
                Brightness::Dimmed(coef),
                old(image)@,
                final(image)@,
            ),
    {
        self.renderer.render(unit, &self.scene, &self.camera, coef, image);
    }
}

/// The score after a tick that meant `result`: a ball that the player
/// loses costs a point, one that the other side loses brings one.
pub open spec fn scored(score: isize, result: AdvanceResult) -> isize {
    match result {
        AdvanceResult::PlayerMiss => score.wrapping_sub(1),
        AdvanceResult::AIMiss => score.wrapping_add(1),
        _ => score,
    }
}

/// The game with its menus and its score.
pub struct GameDriver {
    width: u16,
    height: u16,
    game_state: GameState,
    ui_state: UIState,
    current_selected_item: usize,
    since_last_selection_change: Real,
    since_last_collision: Real,
    last_collision: bool,
    score: isize,
}

impl GameDriver {
    /// The number of columns of the image.
    pub closed spec fn width(self) -> u16 {
        self.width
    }

    /// The number of rows of the image.
    pub closed spec fn height(self) -> u16 {
        self.height
    }

    /// The game itself.
    pub closed spec fn game_state(self) -> GameState {
        self.game_state
    }

    /// What is on the screen.
    pub closed spec fn ui_state(self) -> UIState {
        self.ui_state
    }

    /// The number of the chosen item of the menu.
    pub closed spec fn selected(self) -> usize {
        self.current_selected_item
    }

    /// How long ago the menu took an input.
    pub closed spec fn since_selection(self) -> Real {
        self.since_last_selection_change
    }

    /// How long ago the player hit or lost the ball.
    pub closed spec fn since_collision(self) -> Real {
        self.since_last_collision
    }

    /// Whether the player hit the ball, the last time that the ball was hit
    /// or lost on the player's side.
    pub closed spec fn last_collision(self) -> bool {
        self.last_collision
    }

    /// The balls that the other side has lost, less those that the player has.
    pub closed spec fn score(self) -> isize {
        self.score
    }

    /// While a menu is shown, the chosen item is one of its items.
    pub open spec fn well_formed(self) -> bool {
        self.ui_state() != UIState::Hud ==> self.selected() < self.ui_state().menu().len()
    }

    /// Nothing but the menu's clocks and the chosen item differs from
    /// `other`.
    pub open spec fn same_game(self, other: GameDriver) -> bool {
        &&& self.width() == other.width()
        &&& self.height() == other.height()
        &&& self.game_state() == other.game_state()
        &&& self.ui_state() == other.ui_state()
        &&& self.last_collision() == other.last_collision()
        &&& self.score() == other.score()
    }

    /// A driver that shows the main menu over a game at its start.
    pub fn new<A: Arithmetic>(unit: &A, width: u16, height: u16) -> (driver: Self)
        ensures
            driver.width() == width,
            driver.height() == height,
            driver.game_state().is_new(unit, width, height),
            driver.ui_state() == UIState::MainMenu,
            driver.selected() == 0,
            driver.since_selection() == (Real { bits: ZERO_BITS }),
            driver.since_collision() == (Real { bits: TWO_BITS }),
            !driver.last_collision(),
            driver.score() == 0,
            driver.well_formed(),
    {
        GameDriver {
            width,
            height,
            game_state: GameState::new(unit, width, height),
            ui_state: UIState::MainMenu,
            current_selected_item: 0,
            since_last_selection_change: Real::zero(),
            since_last_collision: Real::two(),
            last_collision: false,
            score: 0,
        }
    }

    /// `after` is `self` once the inputs of a frame have been read, and
    /// `action` is what the player asked for.
    ///
    /// Both clocks go on by the time of the frame.  Until the menu's clock
    /// has reached its timeout nothing is taken; then the inputs mean what
    /// [`chosen`] says, and an input that is taken sets the clock back.
    pub open spec fn reads<A: Arithmetic>(
        self,
        unit: &A,
        inputs: Inputs,
        after: GameDriver,
        action: Option<Action>,
    ) -> bool {
        &&& after.same_game(self)
        &&& is_sum(unit, self.since_collision(), inputs.frame_time, after.since_collision())
        &&& exists|waited: Real| #[trigger]
            is_sum(unit, self.since_selection(), inputs.frame_time, waited) && if waited.less(
                Real { bits: MENU_CHANGE_TIMEOUT_BITS },
            ) {
                &&& action is None
                &&& after.selected() == self.selected()
                &&& after.since_selection() == waited
            } else {
                let choice = chosen(self.ui_state(), self.selected(), inputs);
                &&& action == choice.action
                &&& after.selected() == choice.selected
                &&& after.since_selection() == if choice.taken {
                    Real { bits: ZERO_BITS }
                } else {
                    waited
                }
            }
    }

    /// Reads the inputs of a frame.
    pub fn process_inputs<A: Arithmetic>(&mut self, unit: &A, inputs: &Inputs) -> (action: Option<
        Action,
    >)
        requires
            old(self).well_formed(),
        ensures
            old(self).reads(unit, *inputs, *final(self), action),
            final(self).well_formed(),
    {
        let waited = sum(unit, self.since_last_selection_change, inputs.frame_time);
        let since_last_collision = sum(unit, self.since_last_collision, inputs.frame_time);
        self.since_last_selection_change = waited;
        self.since_last_collision = since_last_collision;
        assert(is_sum(unit, old(self).since_selection(), inputs.frame_time, waited));
        if waited.lt(Real::from_bits(MENU_CHANGE_TIMEOUT_BITS)) {
            return None;
        }
        let choice = choose_item(self.ui_state, self.current_selected_item, inputs);
        self.current_selected_item = choice.selected;
        if choice.taken {
            self.since_last_selection_change = Real::zero();
        }
        choice.action
    }

    /// `after` is `self` once `action` has been done.
    ///
    /// A new game starts from the beginning with no score; opening a menu
    /// chooses its first item and sets the menu's clock back.
    pub open spec fn acts<A: Arithmetic>(self, unit: &A, action: Action, after: GameDriver) -> bool {
        &&& after.width() == self.width()
        &&& after.height() == self.height()
        &&& after.ui_state() == screen_after(self.ui_state(), action)
        &&& after.selected() == if opens_menu(action) {
            0
        } else {
            self.selected()
        }
        &&& after.since_selection() == if opens_menu(action) {
            Real { bits: ZERO_BITS }
        } else {
            self.since_selection()
        }
        &&& after.since_collision() == self.since_collision()
        &&& after.last_collision() == self.last_collision()
        &&& after.score() == if action == Action::NewGame {
            0
        } else {
            self.score()
        }
        &&& if action == Action::NewGame {
            after.game_state().is_new(unit, self.width(), self.height())
        } else {
            after.game_state() == self.game_state()
        }
    }

    /// Does what the player asked for.
    pub fn process_action<A: Arithmetic>(&mut self, unit: &A, action: Action)
        requires
            old(self).well_formed(),
        ensures
            old(self).acts(unit, action, *final(self)),
            final(self).well_formed(),
    {
        match action {
            Action::NewGame => {
                self.game_state = GameState::new(unit, self.width, self.height);
                self.ui_state = UIState::Hud;
                self.score = 0;
            },
            Action::Exit => (),
            Action::Pause => {
                self.ui_state = UIState::PauseMenu;
                self.current_selected_item = 0;
                self.since_last_selection_change = Real::zero();
            },
            Action::EndGame => {
                self.ui_state = UIState::EndGame;
                self.current_selected_item = 0;
                self.since_last_selection_change = Real::zero();
            },
            Action::Continue => {
                self.ui_state = UIState::Hud;
            },
            Action::MainMenu => {
                self.ui_state = UIState::MainMenu;
                self.current_selected_item = 0;
                self.since_last_selection_change = Real::zero();
            },
        }
    }

    /// `after` is `self` once the game has gone on for the time of the
    /// frame.
    ///
    /// While it is paused nothing moves.  Else the far paddle goes after
    /// the ball, and so does the near one unless the player is playing;
    /// the score follows what happens to the ball, and a hit or a loss of
    /// the player's is kept for showing.
    pub open spec fn plays<A: Arithmetic>(self, unit: &A, inputs: Inputs, after: GameDriver) -> bool {
        if self.ui_state() == UIState::PauseMenu {
            after == self
        } else {
            &&& after.width() == self.width()
            &&& after.height() == self.height()
            &&& after.ui_state() == self.ui_state()
            &&& after.selected() == self.selected()
            &&& after.since_selection() == self.since_selection()
            &&& exists|far: Directions, result: AdvanceResult|
                #![trigger follows_ball(unit, self.game_state().scene, far), scored(self.score(), result)]
                {
                    &&& follows_ball(unit, self.game_state().scene, far)
                    &&& self.game_state().advances(
                        unit,
                        inputs.frame_time,
                        if self.ui_state() == UIState::Hud {
                            inputs.steers()
                        } else {
                            far
                        },
                        far,
                        after.game_state(),
                        result,
                    )
                    &&& after.score() == scored(self.score(), result)
                    &&& after.since_collision() == if result == AdvanceResult::PlayerHit || result
                        == AdvanceResult::PlayerMiss {
                        Real { bits: ZERO_BITS }
                    } else {
                        self.since_collision()
                    }
                    &&& after.last_collision() == if result == AdvanceResult::PlayerHit {
                        true
                    } else if result == AdvanceResult::PlayerMiss {
                        false
                    } else {
                        self.last_collision()
                    }
                }
        }
    }

    /// Lets the game go on for the time of the frame.
    pub fn advance<A: Arithmetic>(&mut self, unit: &A, inputs: &Inputs)
        requires
            old(self).well_formed(),
        ensures
            old(self).plays(unit, *inputs, *final(self)),
            final(self).well_formed(),
    {
        if let UIState::PauseMenu = self.ui_state {
            return ;
        }
        let far_directions = control_far_paddle(unit, &self.game_state.scene);
        let near_directions = if let UIState::Hud = self.ui_state {
            Directions::new(
                inputs.up || inputs.is_direction_pressed(TouchDirection::Top),
                inputs.down || inputs.is_direction_pressed(TouchDirection::Bottom),
                inputs.left || inputs.is_direction_pressed(TouchDirection::Left),
                inputs.right || inputs.is_direction_pressed(TouchDirection::Right),
            )
        } else {
            far_directions
        };
        let result = self.game_state.advance(
            unit,
            inputs.frame_time,
            near_directions,
            far_directions,
        );
        match result {
            AdvanceResult::PlayerHit => {
                self.since_last_collision = Real::zero();
                self.last_collision = true;
            },
            AdvanceResult::AIHit => {},
            AdvanceResult::PlayerMiss => {
                self.since_last_collision = Real::zero();
                self.last_collision = false;
                self.score = self.score.wrapping_sub(1);
            },
            AdvanceResult::AIMiss => {
                self.score = self.score.wrapping_add(1);
            },
            AdvanceResult::Nothing => {},
        }
        proof {
            assert(follows_ball(unit, old(self).game_state().scene, far_directions));
            assert(self.score() == scored(old(self).score(), result));
            assert(old(self).game_state().advances(
                unit,
                inputs.frame_time,
                near_directions,
                far_directions,
                self.game_state(),
                result,
            ));
            assert(old(self).ui_state() == UIState::Hud ==> near_directions == inputs.steers());
        }
    }

    /// `after` is `self` a frame later, and `goes_on` says that the player
    /// has not asked to leave: the inputs are read, what they ask for is
    /// done, and the game goes on for the time of the frame.
    pub open spec fn steps<A: Arithmetic>(
        self,
        unit: &A,
        inputs: Inputs,
        after: GameDriver,
        goes_on: bool,
    ) -> bool {
        exists|read: GameDriver, action: Option<Action>| #[trigger]
            self.reads(unit, inputs, read, action) && match action {
                Some(Action::Exit) => !goes_on && after == read,
                Some(other) => goes_on && exists|acted: GameDriver| #[trigger]
                    read.acts(unit, other, acted) && acted.plays(unit, inputs, after),
                None => goes_on && read.plays(unit, inputs, after),
            }
    }

    /// Takes the game through one frame.  Returns `false` when the player
    /// has asked to leave, and `true` when the frame is to be drawn.
    pub fn next_frame<A: Arithmetic>(&mut self, unit: &A, inputs: &Inputs) -> (goes_on: bool)
        requires
            old(self).well_formed(),
        ensures
            old(self).steps(unit, *inputs, *final(self), goes_on),
            final(self).well_formed(),
    {
        let action = self.process_inputs(unit, inputs);
        let ghost read = *self;
        if let Some(action) = action {
            if let Action::Exit = action {
                return false;
            }
            self.process_action(unit, action);
        }
        let ghost acted = *self;
        self.advance(unit, inputs);
        proof {
            match action {
                Some(other) => {
                    assert(read.acts(unit, other, acted));
                },
                None => {},
            }
        }
        true
    }
}

/// How the game is shown behind what is on the screen: in full during
/// play, dimmed to three tenths behind a menu, and not at all once the
/// game is over.
pub open spec fn dimming(state: UIState) -> Option<Real> {
    match state {
        UIState::MainMenu => Some(Real { bits: THREE_TENTHS_BITS }),
        UIState::Hud => Some(Real { bits: ONE_BITS }),
        UIState::PauseMenu => Some(Real { bits: THREE_TENTHS_BITS }),
        UIState::EndGame => None,
    }
}

/// The heading over a menu.
#[derive(Clone, Copy, Debug, PartialEq, Eq)]
pub enum Title {
    /// The name of the game, over the main menu.
    Game,
    /// Over the menu of a game that waits.
    Paused,
    /// The score of a game that is over.
    FinalScore(isize),
}

impl Title {
    /// The words of the heading; a final score follows them.
    pub open spec fn words(self) -> Seq<char> {
        match self {
            Title::Game => "ray ten"@,
            Title::Paused => "Paused"@,
            Title::FinalScore(_) => "Final score: "@,
        }
    }

    /// The words of the heading; a final score follows them.
    pub fn text(&self) -> (text: &'static str)
        ensures
            text@ == self.words(),
    {
        match self {
            Title::Game => "ray ten",
            Title::Paused => "Paused",
            Title::FinalScore(_) => "Final score: ",
        }
    }
}

/// The words before the score during play.
pub fn score_label() -> (text: &'static str)
    ensures
        text@ == "Score: "@,
{
    "Score: "
}

/// The words that tell of a ball that was hit, or of one that was lost.
pub fn notice_text(hit: bool) -> (text: &'static str)
    ensures
        text@ == if hit {
            "Hit!"@
        } else {
            "Miss!"@
        },
{
    if hit {
        "Hit!"
    } else {
        "Miss!"
    }
}

/// What is drawn over the image of the game.
#[derive(Clone, Copy, Debug, PartialEq, Eq)]
pub struct Overlay {
    /// The heading, where a menu is shown.
    pub title: Option<Title>,
    /// The number of the chosen item, where a menu is shown.
    pub menu: Option<usize>,
    /// The score, during play.
    pub score: Option<isize>,
    /// During play, whether to tell of a hit (`Some(true)`), of a miss
    /// (`Some(false)`), or of nothing.
    pub notice: Option<bool>,
}

impl GameDriver {
    /// What to tell the player of the ball: during play, and for a while
    /// after it was hit or lost on the player's side, which of the two it
    /// was.
    pub open spec fn notice(self) -> Option<bool> {
        if self.ui_state() == UIState::Hud && self.since_collision().less(
            Real { bits: COLLISION_NOTICE_TIMEOUT_BITS },
        ) {
            Some(self.last_collision())
        } else {
            None
        }
    }

    /// What is drawn over the image of the game: a heading and the menu
    /// with its chosen item where a menu is shown, the score and the word
    /// on the ball during play.
    pub open spec fn shown(self) -> Overlay {
        match self.ui_state() {
            UIState::MainMenu => Overlay {
                title: Some(Title::Game),
                menu: Some(self.selected()),
                score: None,
                notice: None,
            },
            UIState::Hud => Overlay {
                title: None,
                menu: None,
                score: Some(self.score()),
                notice: self.notice(),
            },
            UIState::PauseMenu => Overlay {
                title: Some(Title::Paused),
                menu: Some(self.selected()),
                score: None,
                notice: None,
            },
            UIState::EndGame => Overlay {
                title: Some(Title::FinalScore(self.score())),
                menu: Some(self.selected()),
                score: None,
                notice: None,
            },
        }
    }

    /// Whether the driver is well formed: a check for callers that are not
    /// verified.
    pub fn is_well_formed(&self) -> (ok: bool)
        ensures
            ok == self.well_formed(),
    {
        match self.ui_state {
            UIState::Hud => true,
            _ => self.current_selected_item < self.ui_state.menu_len(),
        }
    }

    /// What is on the screen.
    pub fn current_ui_state(&self) -> (state: UIState)
        ensures
            state == self.ui_state(),
    {
        self.ui_state
    }

    /// The number of the chosen item of the menu.
    pub fn current_selected_item(&self) -> (selected: usize)
        ensures
            selected == self.selected(),
    {
        self.current_selected_item
    }

    /// The score.
    pub fn current_score(&self) -> (score: isize)
        ensures
            score == self.score(),
    {
        self.score
    }

    /// The game itself.
    pub fn current_game_state(&self) -> (state: &GameState)
        ensures
            *state == self.game_state(),
    {
        &self.game_state
    }

    /// How to dim the image of the game, or `None` where none is shown.
    pub fn brightness(&self) -> (coef: Option<Real>)
        ensures
            coef == dimming(self.ui_state()),
    {
        match self.ui_state {
            UIState::MainMenu => Some(Real::from_bits(THREE_TENTHS_BITS)),
            UIState::Hud => Some(Real::one()),
            UIState::PauseMenu => Some(Real::from_bits(THREE_TENTHS_BITS)),
            UIState::EndGame => None,
        }
    }

    /// Whether to tell the player of a hit (`Some(true)`), of a miss
    /// (`Some(false)`), or of nothing.
    pub fn collision_notice(&self) -> (notice: Option<bool>)
        ensures
            notice == self.notice(),
    {
        match self.ui_state {
            UIState::Hud => {
                if self.since_last_collision.lt(Real::from_bits(COLLISION_NOTICE_TIMEOUT_BITS)) {
                    Some(self.last_collision)
                } else {
                    None
                }
            },
            _ => None,
        }
    }

    /// What to draw over the image of the game.
    pub fn overlay(&self) -> (shown: Overlay)
        ensures
            shown == self.shown(),
    {
        match self.ui_state {
            UIState::MainMenu => Overlay {
                title: Some(Title::Game),
                menu: Some(self.current_selected_item),
                score: None,
                notice: None,
            },
            UIState::Hud => Overlay {
                title: None,
                menu: None,
                score: Some(self.score),
                notice: self.collision_notice(),
            },
            UIState::PauseMenu => Overlay {
                title: Some(Title::Paused),
                menu: Some(self.current_selected_item),
                score: None,
                notice: None,
            },
            UIState::EndGame => Overlay {
                title: Some(Title::FinalScore(self.score)),
                menu: Some(self.current_selected_item),
                score: None,
                notice: None,
            },
        }
    }

    /// Renders the game into `image` as it is to be shown; where none is
    /// shown, `image` stays as it is.
    pub fn render<A: Arithmetic>(&self, unit: &A, image: &mut [[u8; 4]])
        requires
            old(image)@.len() == self.game_state().renderer.columns()
                * self.game_state().renderer.rows(),
            self.game_state().renderer.columns() >= crate::math::LANES || old(image)@.len()
                < crate::math::LANES,
        ensures
            match dimming(self.ui_state()) {
                Some(coef) => self.game_state().renderer.renders(
                    unit,
                    &self.game_state().scene,
                    self.game_state().camera,
                    Brightness::Dimmed(coef),
                    old(image)@,
                    final(image)@,
                ),
                None => final(image)@ == old(image)@,
            },
    {
        match self.brightness() {
            Some(coef) => {
                self.game_state.render(unit, coef, image);
            },
            None => {},
        }
    }
}

} // verus!
