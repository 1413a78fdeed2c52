//! The window: what an event of keyboard and mouse leads to, and how a picture is laid
//! out in it.
use vstd::prelude::*;

verus! {

/// The width of the picture before the machine sets one.
pub const DEFAULT_WIDTH: u32 = 1024;

/// The height of the picture before the machine sets one.
pub const DEFAULT_HEIGHT: u32 = 768;

/// A key, as far as the window itself cares.
#[derive(Clone, Copy, Debug, PartialEq, Eq, Structural)]
pub enum Key {
    ControlRight,
    PrintScreen,
    Other,
}

/// A button of the mouse.
#[derive(Clone, Copy, Debug, PartialEq, Eq, Structural)]
pub enum Button {
    Left,
    Right,
    Middle,
    Other,
}

/// An event of the window.
#[derive(Clone, Copy, Debug, PartialEq, Eq, Structural)]
pub enum UiEvent {
    CloseRequested,
    Resized { width: u32, height: u32 },
    Keyboard { key: Key, pressed: bool, repeat: bool },
    MouseInput { button: Button, pressed: bool },
    MouseWheel,
    MouseMotion,
    FocusLost,
}

/// What an event leads to.
#[derive(Clone, Copy, Debug, PartialEq, Eq, Structural)]
pub enum UiAction {
    Nothing,
    /// The program ends.
    Exit,
    /// The renderer is told the new size of the window.
    StoreSize { width: u32, height: u32 },
    /// The mouse is taken: the cursor is hidden and the motion so far dropped.
    Grab,
    /// The mouse is given back.
    Release,
    /// A screenshot is due.
    Screenshot,
    /// The key goes to the machine.
    PushKey { pressed: bool },
    /// The state of the mouse goes to the machine, also without motion.
    FlushMouse,
    /// The motion of the wheel counts.
    CountWheel,
    /// The motion of the mouse counts.
    CountMotion,
}

/// The state of the window's input.
#[derive(Clone, Copy, Debug, PartialEq, Eq, Structural)]
pub struct Ui {
    /// How often each pixel of the picture is repeated in each direction.
    pub scale: u32,
    pub mouse_grabbed: bool,
    pub rctrl_held: bool,
    pub left: bool,
    pub right: bool,
    pub middle: bool,
}

impl Ui {
    /// The window with nothing held.
    pub open spec fn idle(scale: u32) -> Ui {
        Ui { scale, mouse_grabbed: false, rctrl_held: false, left: false, right: false, middle: false }
    }

    /// The buttons as one byte: left, right and middle from the lowest bit up.
    pub open spec fn button_bits(self) -> int {
        (if self.left {
            1int
        } else {
            0
        }) + (if self.right {
            2int
        } else {
            0
        }) + (if self.middle {
            4int
        } else {
            0
        })
    }

    /// With a button pressed or let go.
    pub open spec fn with_button(self, button: Button, pressed: bool) -> Ui {
        match button {
            Button::Left => Ui { left: pressed, ..self },
            Button::Right => Ui { right: pressed, ..self },
            Button::Middle => Ui { middle: pressed, ..self },
            Button::Other => self,
        }
    }

    /// The state after a key, and what it leads to. The right control key gives the
    /// mouse back, and with print screen it takes a screenshot; neither goes to the
    /// machine.
    pub open spec fn after_key(self, key: Key, pressed: bool, repeat: bool) -> (Ui, UiAction) {
        match key {
            Key::ControlRight => {
                let held = Ui { rctrl_held: pressed, ..self };
                if pressed && !repeat && self.mouse_grabbed {
                    (Ui { mouse_grabbed: false, ..held }, UiAction::Release)
                } else {
                    (held, UiAction::Nothing)
                }
            },
            Key::PrintScreen => if pressed && !repeat && self.rctrl_held {
                (self, UiAction::Screenshot)
            } else {
                (self, UiAction::PushKey { pressed })
            },
            Key::Other => (self, UiAction::PushKey { pressed }),
        }
    }

    /// The state after a button of the mouse, and what it leads to. A click takes the
    /// mouse; once taken, its buttons go to the machine.
    pub open spec fn after_button(self, button: Button, pressed: bool) -> (Ui, UiAction) {
        if self.mouse_grabbed {
            if button == Button::Other {
                (self, UiAction::Nothing)
            } else {
                (self.with_button(button, pressed), UiAction::FlushMouse)
            }
        } else if pressed && button == Button::Left {
            (Ui { mouse_grabbed: true, ..self }, UiAction::Grab)
        } else {
            (self, UiAction::Nothing)
        }
    }

    /// The state after an event, and what it leads to.
    pub open spec fn after(self, event: UiEvent) -> (Ui, UiAction) {
        match event {
            UiEvent::CloseRequested => (self, UiAction::Exit),
            UiEvent::Resized { width, height } => if width != 0 && height != 0 {
                (self, UiAction::StoreSize { width, height })
            } else {
                (self, UiAction::Nothing)
            },
            UiEvent::Keyboard { key, pressed, repeat } => self.after_key(key, pressed, repeat),
            UiEvent::MouseInput { button, pressed } => self.after_button(button, pressed),
            UiEvent::MouseWheel => if self.mouse_grabbed {
                (self, UiAction::CountWheel)
            } else {
                (self, UiAction::Nothing)
            },
            UiEvent::MouseMotion => if self.mouse_grabbed {
                (self, UiAction::CountMotion)
            } else {
                (self, UiAction::Nothing)
            },
            UiEvent::FocusLost => if self.mouse_grabbed {
                (Ui { mouse_grabbed: false, ..self }, UiAction::Release)
            } else {
                (self, UiAction::Nothing)
            },
        }
    }

    /// The state after some events.
    pub open spec fn after_all(self, events: Seq<UiEvent>) -> Ui
        decreases events.len(),
    {
        if events.len() == 0 {
            self
        } else {
            self.after_all(events.drop_last()).after(events.last()).0
        }
    }

    /// A window with nothing held.
    pub fn new(scale: u32) -> (r: Ui)
        ensures
            r == Ui::idle(scale),
    {
        Ui { scale, mouse_grabbed: false, rctrl_held: false, left: false, right: false, middle: false }
    }

    /// The size of the window at first, with a status bar of a given height.
    pub fn window_size(&self, status_bar_height: u32) -> (r: (u32, u32))
        requires
            DEFAULT_WIDTH * self.scale <= u32::MAX,
            (DEFAULT_HEIGHT + status_bar_height) * self.scale <= u32::MAX,
            DEFAULT_HEIGHT + status_bar_height <= u32::MAX,
        ensures
            r.0 == DEFAULT_WIDTH * self.scale,
            r.1 == (DEFAULT_HEIGHT + status_bar_height) * self.scale,
            r.0 == 1024 * self.scale,
            r.1 == (768 + status_bar_height) * self.scale,
    {
        (DEFAULT_WIDTH * self.scale, (DEFAULT_HEIGHT + status_bar_height) * self.scale)
    }

    /// Takes in a key.
    pub fn handle_keyboard(&mut self, key: Key, pressed: bool, repeat: bool) -> (r: UiAction)
        ensures
            (*final(self), r) == old(self).after_key(key, pressed, repeat),
    {
        if key == Key::ControlRight {
            self.rctrl_held = pressed;
            if pressed && !repeat && self.mouse_grabbed {
                self.mouse_grabbed = false;
                return UiAction::Release;
            }
            return UiAction::Nothing;
        }
        if key == Key::PrintScreen && pressed && !repeat && self.rctrl_held {
            return UiAction::Screenshot;
        }
        UiAction::PushKey { pressed }
    }

    /// Takes in a button of the mouse.
    pub fn handle_button(&mut self, button: Button, pressed: bool) -> (r: UiAction)
        ensures
            (*final(self), r) == old(self).after_button(button, pressed),
    {
        if self.mouse_grabbed {
            match button {
                Button::Left => {
                    self.left = pressed;
                },
                Button::Right => {
                    self.right = pressed;
                },
                Button::Middle => {
                    self.middle = pressed;
                },
                Button::Other => {
                    return UiAction::Nothing;
                },
            }
            return UiAction::FlushMouse;
        }
        if pressed && button == Button::Left {
            self.mouse_grabbed = true;
            return UiAction::Grab;
        }
        UiAction::Nothing
    }

    /// Takes in an event.
    pub fn run(&mut self, event: UiEvent) -> (r: UiAction)
        ensures
            (*final(self), r) == old(self).after(event),
    {
        match event {
            UiEvent::CloseRequested => UiAction::Exit,
            UiEvent::Resized { width, height } => if width != 0 && height != 0 {
                UiAction::StoreSize { width, height }
            } else {
                UiAction::Nothing
            },
            UiEvent::Keyboard { key, pressed, repeat } => self.handle_keyboard(key, pressed, repeat),
            UiEvent::MouseInput { button, pressed } => self.handle_button(button, pressed),
            UiEvent::MouseWheel => if self.mouse_grabbed {
                UiAction::CountWheel
            } else {
                UiAction::Nothing
            },
            UiEvent::MouseMotion => if self.mouse_grabbed {
                UiAction::CountMotion
            } else {
                UiAction::Nothing
            },
            UiEvent::FocusLost => if self.mouse_grabbed {
                self.mouse_grabbed = false;
                UiAction::Release
            } else {
                UiAction::Nothing
            },
        }
    }

    /// The packet of the mouse for whole steps of motion, which goes to the machine
    /// unless motion is asked for and there is none.
    pub fn flush_mouse_delta(&self, dx: i32, dy: i32, dz: i32, require_motion: bool) -> (r: Option<
        (u8, i32, i32, i32),
    >)
        ensures
            if require_motion && dx == 0 && dy == 0 && dz == 0 {
                r is None
            } else {
                r matches Some(p) && p.0 == self.button_bits() && p.1 == dx && p.2 == dy && p.3 == dz
            },
    {
        if require_motion && dx == 0 && dy == 0 && dz == 0 {
            return None;
        }
        let left: u8 = if self.left {
            1
        } else {
            0
        };
        let right: u8 = if self.right {
            2
        } else {
            0
        };
        let middle: u8 = if self.middle {
            4
        } else {
            0
        };
        Some((left + right + middle, dx, dy, dz))
    }
}

/// While the mouse is not taken, nothing of it reaches the machine: no button, no motion
/// and no turn of the wheel.
pub proof fn law_free_mouse_stays_outside(ui: Ui, event: UiEvent)
    requires
        !ui.mouse_grabbed,
        event is MouseInput || event is MouseWheel || event is MouseMotion,
    ensures
        ui.after(event).1 is Nothing || ui.after(event).1 is Grab,
        ui.after(event).0.button_bits() == ui.button_bits(),
{
}

/// The right control key gives the mouse back, whatever else is held, and no event but
/// a press of the left button takes it again.
pub proof fn law_control_gives_the_mouse_back(ui: Ui, events: Seq<UiEvent>)
    requires
        forall|i: int|
            0 <= i < events.len() ==> !(#[trigger] events[i] matches UiEvent::MouseInput {
                button: Button::Left,
                pressed: true,
            }),
    ensures
        !ui.after_key(Key::ControlRight, true, false).0.after_all(events).mouse_grabbed,
    decreases events.len(),
{
    if events.len() > 0 {
        assert forall|i: int| 0 <= i < events.drop_last().len() implies !(
        #[trigger] events.drop_last()[i] matches UiEvent::MouseInput { button: Button::Left, pressed: true }) by {
            assert(events.drop_last()[i] == events[i]);
        }
        law_control_gives_the_mouse_back(ui, events.drop_last());
    }
}

/// Neither the right control key nor a screenshot reaches the machine, and every other
/// key does, as often as it is pressed and let go.
pub proof fn law_keys_reach_the_machine(ui: Ui, key: Key, pressed: bool, repeat: bool)
    ensures
        (ui.after_key(key, pressed, repeat).1 == UiAction::PushKey { pressed }) <==> !(key == Key::ControlRight || (
        key == Key::PrintScreen && pressed && !repeat && ui.rctrl_held)),
{
}

/// A size that is handed on is one that a surface can have.
pub proof fn law_stored_size_is_not_empty(ui: Ui, event: UiEvent)
    ensures
        ui.after(event).1 matches UiAction::StoreSize { width, height } ==> width > 0 && height > 0,
{
}

/// The configuration with the most samples, the first one among equals.
pub fn most_samples(samples: &Vec<u8>) -> (r: usize)
    requires
        samples@.len() > 0,
    ensures
        r < samples@.len(),
        forall|i: int| 0 <= i < samples@.len() ==> #[trigger] samples@[i] <= samples@[r as int],
        forall|i: int| 0 <= i < r ==> #[trigger] samples@[i] < samples@[r as int],
{
    let mut best: usize = 0;
    let mut i: usize = 1;
    while i < samples.len()
        invariant
            1 <= i <= samples@.len(),
            best < i,
            forall|k: int| 0 <= k < i ==> #[trigger] samples@[k] <= samples@[best as int],
            forall|k: int| 0 <= k < best ==> #[trigger] samples@[k] < samples@[best as int],
        decreases samples@.len() - i,
    {
        if samples[i] > samples[best] {
            best = i;
        }
        i += 1;
    }
    best
}

/// A step in building the program that draws.
#[derive(Debug)]
pub enum GlStep {
    CompileVertex,
    /// The shader that fetches each texel by itself.
    CompileFetch,
    LinkFetch,
    /// The shader that samples; `detach` tells that the other one is still attached.
    CompileSample { detach: bool },
    LinkSample,
    Ready,
    Failed(String),
}

/// A step in building the program that draws, as a model.
pub enum GlStage {
    CompileVertex,
    CompileFetch,
    LinkFetch,
    CompileSample { detach: bool },
    LinkSample,
    Ready,
    Failed(Seq<char>),
}

impl View for GlStep {
    type V = GlStage;

    open spec fn view(&self) -> GlStage {
        match self {
            GlStep::CompileVertex => GlStage::CompileVertex,
            GlStep::CompileFetch => GlStage::CompileFetch,
            GlStep::LinkFetch => GlStage::LinkFetch,
            GlStep::CompileSample { detach } => GlStage::CompileSample { detach: *detach },
            GlStep::LinkSample => GlStage::LinkSample,
            GlStep::Ready => GlStage::Ready,
            GlStep::Failed(e) => GlStage::Failed(e@),
        }
    }
}

impl GlStage {
    /// The stage after this one went well or not, with the log of the driver.
    pub open spec fn next(self, went_well: bool, log: Seq<char>) -> GlStage {
        match self {
            GlStage::CompileVertex => if went_well {
                GlStage::CompileFetch
            } else {
                GlStage::Failed("Vertex shader compilation failed: "@ + log)
            },
            GlStage::CompileFetch => if went_well {
                GlStage::LinkFetch
            } else {
                GlStage::CompileSample { detach: false }
            },
            GlStage::LinkFetch => if went_well {
                GlStage::Ready
            } else {
                GlStage::CompileSample { detach: true }
            },
            GlStage::CompileSample { detach: _ } => if went_well {
                GlStage::LinkSample
            } else {
                GlStage::Failed("Fragment shader compilation failed: "@ + log)
            },
            GlStage::LinkSample => if went_well {
                GlStage::Ready
            } else {
                GlStage::Failed("Program linking failed: "@ + log)
            },
            GlStage::Ready => GlStage::Ready,
            GlStage::Failed(e) => GlStage::Failed(e),
        }
    }

    /// How many more stages there can be at most.
    pub open spec fn stages_left(self) -> int {
        match self {
            GlStage::CompileVertex => 5,
            GlStage::CompileFetch => 4,
            GlStage::LinkFetch => 3,
            GlStage::CompileSample { detach: _ } => 2,
            GlStage::LinkSample => 1,
            GlStage::Ready => 0,
            GlStage::Failed(_) => 0,
        }
    }
}

fn failure(what: &str, log: &str) -> (r: GlStep)
    ensures
        r@ == GlStage::Failed(what@ + log@),
{
    let mut e = what.to_owned();
    e.append(log);
    GlStep::Failed(e)
}

impl GlStep {
    /// The step after this one went well or not, with the log of the driver.
    pub fn next(self, went_well: bool, log: &str) -> (r: GlStep)
        ensures
            r@ == self@.next(went_well, log@),
    {
        match self {
            GlStep::CompileVertex => if went_well {
                GlStep::CompileFetch
            } else {
                failure("Vertex shader compilation failed: ", log)
            },
            GlStep::CompileFetch => if went_well {
                GlStep::LinkFetch
            } else {
                GlStep::CompileSample { detach: false }
            },
            GlStep::LinkFetch => if went_well {
                GlStep::Ready
            } else {
                GlStep::CompileSample { detach: true }
            },
            GlStep::CompileSample { detach: _ } => if went_well {
                GlStep::LinkSample
            } else {
                failure("Fragment shader compilation failed: ", log)
            },
            GlStep::LinkSample => if went_well {
                GlStep::Ready
            } else {
                failure("Program linking failed: ", log)
            },
            GlStep::Ready => GlStep::Ready,
            GlStep::Failed(e) => GlStep::Failed(e),
        }
    }
}

/// Building the program ends, and a driver that cannot take the shader that fetches is
/// no reason to fail.
pub proof fn law_program_gets_built(stage: GlStage, went_well: bool, log: Seq<char>)
    ensures
        stage.stages_left() > 0 ==> stage.next(went_well, log).stages_left() < stage.stages_left(),
        stage.stages_left() >= 0,
        stage.stages_left() == 0 <==> stage is Ready || stage is Failed,
        stage is CompileFetch || stage is LinkFetch ==> !(stage.next(went_well, log) is Failed),
{
}

/// What a pass draws.
#[derive(Clone, Copy, Debug, PartialEq, Eq, Structural)]
pub enum Layer {
    Picture,
    Overlay,
    StatusBar,
}

/// A pass: a texture of a size in pixels of the picture, whose last row stands at
/// `y_base` pixels of the window above its lower edge.
#[derive(Clone, Copy, Debug, PartialEq, Eq, Structural)]
pub struct Pass {
    pub layer: Layer,
    pub width: usize,
    pub height: usize,
    pub y_base: u32,
    pub blend: bool,
}

/// How a picture is put on the window.
#[derive(Debug)]
pub struct Presentation {
    /// The size that the surface and the viewport are to have from now on.
    pub resize: Option<(u32, u32)>,
    /// The height of the window that the quads are computed for.
    pub window_height: usize,
    /// The quads have to be computed anew.
    pub new_quads: bool,
    pub passes: Vec<Pass>,
}

/// The state of the renderer.
#[derive(Clone, Copy, Debug, PartialEq, Eq, Structural)]
pub struct GlRenderer {
    /// The size of the picture that the quads were computed for.
    pub current_w: usize,
    pub current_h: usize,
    pub scale: u32,
    pub status_bar_height: u32,
}

/// The passes for a picture: the picture above the status bar, what is drawn over it,
/// and the status bar at the lower edge.
pub open spec fn passes(
    width: usize,
    height: usize,
    status_bar_height: u32,
    scale: u32,
    overlay: bool,
) -> Seq<Pass> {
    let above = (status_bar_height * scale) as u32;
    let picture = Pass { layer: Layer::Picture, width, height, y_base: above, blend: false };
    let over = Pass { layer: Layer::Overlay, blend: true, ..picture };
    let bar = Pass {
        layer: Layer::StatusBar,
        width,
        height: status_bar_height as usize,
        y_base: 0,
        blend: false,
    };
    if overlay {
        seq![picture, over, bar]
    } else {
        seq![picture, bar]
    }
}

impl GlRenderer {
    /// The renderer of a window, which has drawn nothing yet.
    pub fn new(scale: u32, status_bar_height: u32) -> (r: GlRenderer)
        ensures
            r == (GlRenderer { current_w: 0, current_h: 0, scale, status_bar_height }),
    {
        GlRenderer { current_w: 0, current_h: 0, scale, status_bar_height }
    }

    /// Lays out a picture, with the size that the window got since the last one.
    /// There is nothing to draw for a picture without pixels.
    pub fn present(
        &mut self,
        width: usize,
        height: usize,
        resize: Option<(u32, u32)>,
        overlay: bool,
    ) -> (r: Option<Presentation>)
        requires
            (height + old(self).status_bar_height) * old(self).scale <= usize::MAX,
            height + old(self).status_bar_height <= usize::MAX,
            old(self).status_bar_height * old(self).scale <= u32::MAX,
            resize matches Some((w, h)) ==> w > 0 && h > 0,
        ensures
            if width == 0 || height == 0 {
                r is None && *final(self) == *old(self)
            } else {
                &&& r matches Some(p) && {
                    &&& p.resize == resize
                    &&& p.window_height == (match resize {
                        Some((_, h)) => h as int,
                        None => (height + old(self).status_bar_height) * old(self).scale,
                    })
                    &&& p.new_quads <==> (width != old(self).current_w || height != old(self).current_h)
                    &&& p.passes@ == passes(
                        width,
                        height,
                        old(self).status_bar_height,
                        old(self).scale,
                        overlay,
                    )
                }
                &&& *final(self) == (GlRenderer { current_w: width, current_h: height, ..*old(self) })
            },
    {
        if width == 0 || height == 0 {
            return None;
        }
        let window_height: usize = match resize {
            Some((_, h)) => h as usize,
            None => (height + self.status_bar_height as usize) * self.scale as usize,
        };
        let new_quads: bool = width != self.current_w || height != self.current_h;
        self.current_w = width;
        self.current_h = height;
        let above: u32 = self.status_bar_height * self.scale;
        let mut list: Vec<Pass> = Vec::new();
        list.push(Pass { layer: Layer::Picture, width, height, y_base: above, blend: false });
        if overlay {
            list.push(Pass { layer: Layer::Overlay, width, height, y_base: above, blend: true });
        }
        list.push(
            Pass {
                layer: Layer::StatusBar,
                width,
                height: self.status_bar_height as usize,
                y_base: 0,
                blend: false,
            },
        );
        assert(list@ =~= passes(width, height, self.status_bar_height, self.scale, overlay));
        Some(Presentation { resize, window_height, new_quads, passes: list })
    }

    /// The size of the window to ask for when the picture gets a new size, of which
    /// the lower halves count.
    pub fn resize(&self, width: usize, height: usize) -> (r: (u32, u32))
        requires
            height + self.status_bar_height <= usize::MAX,
            width as int % 0x1_0000_0000 * self.scale <= u32::MAX,
            (height + self.status_bar_height) % 0x1_0000_0000 * self.scale <= u32::MAX,
        ensures
            r.0 == width as int % 0x1_0000_0000 * self.scale,
            r.1 == (height + self.status_bar_height) % 0x1_0000_0000 * self.scale,
    {
        let w: u32 = (width as u64 % 0x1_0000_0000) as u32;
        let h: u32 = ((height + self.status_bar_height as usize) as u64 % 0x1_0000_0000) as u32;
        (w * self.scale, h * self.scale)
    }

    /// Forgets the quads.
    pub fn stop(&mut self)
        ensures
            *final(self) == (GlRenderer { current_w: 0, current_h: 0, ..*old(self) }),
    {
        self.current_w = 0;
        self.current_h = 0;
    }
}

/// The picture and the status bar share the window without a gap: the bar ends where
/// the picture begins, and the picture ends at the top of a window of its own size.
pub proof fn law_passes_fill_the_window(
    width: usize,
    height: usize,
    status_bar_height: u32,
    scale: u32,
    overlay: bool,
)
    requires
        status_bar_height * scale <= u32::MAX,
    ensures
        passes(width, height, status_bar_height, scale, overlay).last().y_base == 0,
        passes(width, height, status_bar_height, scale, overlay).last().height * scale == passes(
            width,
            height,
            status_bar_height,
            scale,
            overlay,
        )[0].y_base,
        passes(width, height, status_bar_height, scale, overlay)[0].y_base + height * scale == (height
            + status_bar_height) * scale,
{
    assert(status_bar_height * scale + height * scale == (height + status_bar_height) * scale) by (nonlinear_arith);
}

/// The buttons of the mouse make one byte, each of the three by its own bit.
pub proof fn law_bits_of_the_buttons(ui: Ui, pressed: bool)
    ensures
        ui.button_bits() % 2 == 1 <==> ui.left,
        ui.button_bits() / 2 % 2 == 1 <==> ui.right,
        ui.button_bits() / 4 == 1 <==> ui.middle,
        0 <= ui.button_bits() < 8,
        ui.with_button(Button::Left, pressed) == (Ui { left: pressed, ..ui }),
        ui.with_button(Button::Right, pressed) == (Ui { right: pressed, ..ui }),
        ui.with_button(Button::Middle, pressed) == (Ui { middle: pressed, ..ui }),
        ui.with_button(Button::Other, pressed) == ui,
{
}

/// A mouse that is taken has every press and release of its three buttons go to the machine,
/// and its motion and its wheel count. A button of another kind is left alone.
pub proof fn law_taken_mouse_reaches_the_machine(ui: Ui, button: Button, pressed: bool)
    requires
        ui.mouse_grabbed,
    ensures
        button != Button::Other ==> ui.after(UiEvent::MouseInput { button, pressed }) == (
            ui.with_button(button, pressed),
            UiAction::FlushMouse,
        ),
        button == Button::Other ==> ui.after(UiEvent::MouseInput { button, pressed }) == (ui, UiAction::Nothing),
        ui.after(UiEvent::MouseWheel) == (ui, UiAction::CountWheel),
        ui.after(UiEvent::MouseMotion) == (ui, UiAction::CountMotion),
        ui.after(UiEvent::FocusLost) == (Ui { mouse_grabbed: false, ..ui }, UiAction::Release),
{
}

/// A mouse that is free is taken by a press of its left button, and by nothing else that is
/// done with it.
pub proof fn law_left_button_takes_the_mouse(ui: Ui, button: Button, pressed: bool)
    requires
        !ui.mouse_grabbed,
    ensures
        button == Button::Left && pressed ==> ui.after(UiEvent::MouseInput { button, pressed }) == (
            Ui { mouse_grabbed: true, ..ui },
            UiAction::Grab,
        ),
        button != Button::Left || !pressed ==> ui.after(UiEvent::MouseInput { button, pressed }) == (
            ui,
            UiAction::Nothing,
        ),
        ui.after(UiEvent::MouseWheel) == (ui, UiAction::Nothing),
        ui.after(UiEvent::MouseMotion) == (ui, UiAction::Nothing),
        ui.after(UiEvent::FocusLost) == (ui, UiAction::Nothing),
{
}

/// The right control key is held from its press to its release. Its press, but not a repeat
/// of it, gives a taken mouse back. Every other key changes nothing of the window: with the
/// right control key held a press of print screen is a screenshot, and all else goes to the
/// machine.
pub proof fn law_keys(ui: Ui, key: Key, pressed: bool, repeat: bool)
    ensures
        ({
            let after = ui.after(UiEvent::Keyboard { key, pressed, repeat });
            &&& key == Key::ControlRight && pressed && !repeat && ui.mouse_grabbed ==> after == (
                Ui { rctrl_held: true, mouse_grabbed: false, ..ui },
                UiAction::Release,
            )
            &&& key == Key::ControlRight && !(pressed && !repeat && ui.mouse_grabbed) ==> after == (
                Ui { rctrl_held: pressed, ..ui },
                UiAction::Nothing,
            )
            &&& key == Key::PrintScreen && pressed && !repeat && ui.rctrl_held ==> after == (ui, UiAction::Screenshot)
            &&& key == Key::PrintScreen && !(pressed && !repeat && ui.rctrl_held) ==> after == (
                ui,
                UiAction::PushKey { pressed },
            )
            &&& key == Key::Other ==> after == (ui, UiAction::PushKey { pressed })
        }),
{
}

/// A window that is closed ends the program, and every size that has pixels is handed on as
/// it is; one that has none is not.
pub proof fn law_window_events(ui: Ui, width: u32, height: u32, scale: u32)
    ensures
        ui.after(UiEvent::CloseRequested) == (ui, UiAction::Exit),
        width > 0 && height > 0 ==> ui.after(UiEvent::Resized { width, height }) == (
            ui,
            UiAction::StoreSize { width, height },
        ),
        width == 0 || height == 0 ==> ui.after(UiEvent::Resized { width, height }) == (ui, UiAction::Nothing),
        Ui::idle(scale) == (Ui {
            scale,
            mouse_grabbed: false,
            rctrl_held: false,
            left: false,
            right: false,
            middle: false,
        }),
{
}

/// The program is built with the shader that fetches, and with the one that samples where
/// the driver does not compile or link that. Only where it does not take the vertex shader,
/// or the other one either, there is no program, and the log of the driver says why.
pub proof fn law_stages_of_the_program(detach: bool, log: Seq<char>, e: Seq<char>)
    ensures
        GlStage::CompileVertex.next(true, log) == GlStage::CompileFetch,
        GlStage::CompileVertex.next(false, log) == GlStage::Failed("Vertex shader compilation failed: "@ + log),
        GlStage::CompileFetch.next(true, log) == GlStage::LinkFetch,
        GlStage::CompileFetch.next(false, log) == (GlStage::CompileSample { detach: false }),
        GlStage::LinkFetch.next(true, log) == GlStage::Ready,
        GlStage::LinkFetch.next(false, log) == (GlStage::CompileSample { detach: true }),
        (GlStage::CompileSample { detach }).next(true, log) == GlStage::LinkSample,
        (GlStage::CompileSample { detach }).next(false, log) == GlStage::Failed(
            "Fragment shader compilation failed: "@ + log,
        ),
        GlStage::LinkSample.next(true, log) == GlStage::Ready,
        GlStage::LinkSample.next(false, log) == GlStage::Failed("Program linking failed: "@ + log),
        forall|w: bool| #[trigger] GlStage::Ready.next(w, log) == GlStage::Ready,
        forall|w: bool| #[trigger] GlStage::Failed(e).next(w, log) == GlStage::Failed(e),
{
}

/// The picture is drawn first, as large as it is, above the room that the status bar takes;
/// what goes over it is blended in at the same place; the status bar is drawn last, at the
/// lower edge and as wide as the picture.
pub proof fn law_passes_of_a_picture(
    width: usize,
    height: usize,
    status_bar_height: u32,
    scale: u32,
    overlay: bool,
)
    requires
        status_bar_height * scale <= u32::MAX,
    ensures
        ({
            let p = passes(width, height, status_bar_height, scale, overlay);
            &&& p.len() == (if overlay {
                3int
            } else {
                2int
            })
            &&& p[0].layer == Layer::Picture && p[0].width == width && p[0].height == height && p[0].y_base
                == status_bar_height * scale && !p[0].blend
            &&& overlay ==> p[1].layer == Layer::Overlay && p[1].width == width && p[1].height == height && p[1].y_base
                == status_bar_height * scale && p[1].blend
            &&& p.last().layer == Layer::StatusBar && p.last().width == width && p.last().height == status_bar_height
                && p.last().y_base == 0 && !p.last().blend
        }),
{
}

/// Keys and buttons do the same as events and by themselves.
pub proof fn law_keys_and_buttons_by_themselves(ui: Ui, key: Key, button: Button, pressed: bool, repeat: bool)
    ensures
        ui.after_key(key, pressed, repeat) == ui.after(UiEvent::Keyboard { key, pressed, repeat }),
        ui.after_button(button, pressed) == ui.after(UiEvent::MouseInput { button, pressed }),
{
}

/// A step of building the program and its model say the same.
pub proof fn law_model_of_a_step(detach: bool, e: String)
    ensures
        GlStep::CompileVertex@ == GlStage::CompileVertex && GlStep::CompileFetch@ == GlStage::CompileFetch,
        GlStep::LinkFetch@ == GlStage::LinkFetch && GlStep::LinkSample@ == GlStage::LinkSample,
        (GlStep::CompileSample { detach })@ == (GlStage::CompileSample { detach }),
        GlStep::Ready@ == GlStage::Ready,
        GlStep::Failed(e)@ == GlStage::Failed(e@),
{
}

}
