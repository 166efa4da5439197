//! End-to-end tests of the registry, dispatch and cycle driver, using a
//! small tagged-variant component type.

use compositor::{
    Callback, Component, Compositor, Context, Event, EventAccess, HasId, Id, IntoCallback, Jobs,
    LayerId, Rect, Resume,
};

#[derive(Debug, Clone, PartialEq)]
struct AppState {
    text: String,
    hits: Vec<Id>,
}

impl AppState {
    fn new() -> AppState {
        AppState { text: String::from("hello"), hits: Vec::new() }
    }
}

/// A component that records in the shared state that it observed an event,
/// and optionally consumes it.
#[derive(Debug, PartialEq)]
struct Probe {
    id: Id,
    consumes: bool,
}

/// A component that draws the shared text; used as the "other concrete
/// type" in typed-lookup tests.
#[derive(Debug, PartialEq)]
struct Label {
    id: Id,
}

#[derive(Debug, PartialEq)]
enum TestComp {
    Probe(Probe),
    Label(Label),
}

#[derive(Debug)]
enum Cb {
    ClearText,
    Exit,
    MountProbe(LayerId, Id),
}

impl HasId for TestComp {
    fn id(&self) -> Id {
        match self {
            TestComp::Probe(p) => p.id,
            TestComp::Label(l) => l.id,
        }
    }
}

impl Component<AppState, u32, Cb> for TestComp {
    fn view(&self, _area: Rect, buf: &mut ratatui::buffer::Buffer, state: &AppState) {
        if let TestComp::Label(_) = self {
            buf.set_string(0, 0, &state.text, ratatui::style::Style::default());
        }
    }

    fn handle_event(&mut self, event: &mut EventAccess<u32>, cx: &mut Context<AppState, u32, Cb>) {
        if let TestComp::Probe(p) = self {
            cx.state_mut().hits.push(p.id);
            if p.consumes {
                event.consume();
            }
        }
    }

    fn should_update(&self, state: &AppState) -> bool {
        !state.text.is_empty() || matches!(self, TestComp::Label(_))
    }
}

impl Callback<AppState, u32, TestComp, Cb> for Cb {
    fn apply(self, comp: &mut Compositor<AppState, u32, TestComp, Cb>) {
        match self {
            Cb::ClearText => comp.state_mut().text.clear(),
            Cb::Exit => comp.exit(),
            Cb::MountProbe(layer, id) => {
                let _ = comp.insert_at(layer, TestComp::Probe(Probe { id, consumes: false }));
            },
        }
    }
}


/// A component that consumes user events and queues an exit callback.
#[derive(Debug)]
struct Quitter {
    id: Id,
}

impl HasId for Quitter {
    fn id(&self) -> Id {
        self.id
    }
}

impl Component<AppState, u32, Cb> for Quitter {
    fn view(&self, _a: Rect, _b: &mut ratatui::buffer::Buffer, _s: &AppState) {}

    fn handle_event(&mut self, event: &mut EventAccess<u32>, cx: &mut Context<AppState, u32, Cb>) {
        if event.peek().is_user() {
            event.consume();
            cx.add_callback(Cb::Exit);
        }
    }
}

impl Callback<AppState, u32, Quitter, Cb> for Cb {
    fn apply(self, comp: &mut Compositor<AppState, u32, Quitter, Cb>) {
        if let Cb::Exit = self {
            comp.exit();
        }
    }
}

/// A component that queues two text-appending callbacks on every event.
#[derive(Debug)]
struct Mounter {
    id: Id,
}

impl HasId for Mounter {
    fn id(&self) -> Id {
        self.id
    }
}

impl Component<AppState, u32, MCb> for Mounter {
    fn view(&self, _a: Rect, _b: &mut ratatui::buffer::Buffer, _s: &AppState) {}

    fn handle_event(&mut self, _event: &mut EventAccess<u32>, cx: &mut Context<AppState, u32, MCb>) {
        cx.add_callback(MCb::Append('a'));
        cx.add_callback(MCb::Append('b'));
    }
}

#[derive(Debug)]
enum MCb {
    Append(char),
}

impl Callback<AppState, u32, Mounter, MCb> for MCb {
    fn apply(self, comp: &mut Compositor<AppState, u32, Mounter, MCb>) {
        let MCb::Append(c) = self;
        comp.state_mut().text.push(c);
    }
}

/// A component for the stateless compositor.
#[derive(Debug)]
struct Bare {
    id: Id,
}

impl HasId for Bare {
    fn id(&self) -> Id {
        self.id
    }
}

impl Component<(), u32, BareCb> for Bare {
    fn view(&self, _a: Rect, _b: &mut ratatui::buffer::Buffer, _s: &()) {}
}

#[derive(Debug)]
enum BareCb {}

impl Callback<(), u32, Bare, BareCb> for BareCb {
    fn apply(self, _comp: &mut Compositor<(), u32, Bare, BareCb>) {}
}

fn id(seed: &[u8]) -> Id {
    Id::new(seed).expect("seed hashes to zero")
}

fn make_jobs() -> Jobs<u32, Cb> {
    let (tx, _rx) = tokio::sync::mpsc::channel(4);
    Jobs::new(tx)
}

fn area() -> Rect {
    Rect { x: 0, y: 0, width: 20, height: 3 }
}

fn probe(seed: &[u8], consumes: bool) -> TestComp {
    TestComp::Probe(Probe { id: id(seed), consumes })
}

type TestCompositor = Compositor<AppState, u32, TestComp, Cb>;

/// Dispatches one user event and returns the compositor together with the
/// order in which components observed it.
fn dispatch_user(comp: TestCompositor, payload: u32) -> (TestCompositor, Vec<Id>, bool) {
    let mut access = EventAccess::new(Event::User(payload));
    let (mut comp, cbs, _jobs) = comp.dispatch_event(&mut access, area(), make_jobs());
    let hits = comp.state().hits.clone();
    comp.state_mut().hits.clear();
    comp.apply_callbacks(cbs);
    (comp, hits, access.is_consumed())
}

#[test]
fn insert_and_get_back() {
    let mut comp = TestCompositor::with_state(AppState::new());
    let x = id(b"x");
    assert!(comp.insert_at(LayerId::foreground(), probe(b"x", true)).is_ok());
    let found = comp.get_at(LayerId::foreground(), x);
    assert!(matches!(found, Some(TestComp::Probe(p)) if p.id == x));
    assert!(comp.get_at(LayerId::background(), x).is_none());
    assert!(comp.get_at(LayerId::foreground(), id(b"other")).is_none());
}

#[test]
fn insert_duplicate_id_fails_and_returns_component() {
    let mut comp = TestCompositor::with_state(AppState::new());
    let layer = LayerId::middle();
    let x = id(b"x");
    assert!(comp.insert_at(layer, probe(b"x", false)).is_ok());
    // The second instance is observably different from the first.
    let second = probe(b"x", true);
    match comp.insert_at(layer, second) {
        Err(returned) => assert_eq!(returned, TestComp::Probe(Probe { id: x, consumes: true })),
        Ok(()) => panic!("duplicate insert must fail"),
    }
    // The registry still holds the first instance.
    match comp.get_at(layer, x) {
        Some(TestComp::Probe(p)) => assert!(!p.consumes),
        other => panic!("expected the first probe, got {other:?}"),
    }
    // The same id may live in another layer simultaneously.
    assert!(comp.insert_at(LayerId::popup(), probe(b"x", true)).is_ok());
}

#[test]
fn replace_keeps_exactly_one_occupant() {
    let mut comp = TestCompositor::with_state(AppState::new());
    let layer = LayerId::foreground();
    let x = id(b"x");
    assert!(comp.insert_at(layer, probe(b"x", false)).is_ok());
    comp.replace_at(layer, probe(b"x", true));
    // The occupant is the newly supplied instance.
    match comp.get_at(layer, x) {
        Some(TestComp::Probe(p)) => assert!(p.consumes),
        other => panic!("expected the new probe, got {other:?}"),
    }
    // And it is the only one: one removal succeeds, the next finds nothing.
    assert!(comp.remove_at(layer, x));
    assert!(!comp.remove_at(layer, x));
    assert!(comp.get_at(layer, x).is_none());
}

#[test]
fn replace_moves_component_to_end_of_layer() {
    let mut comp = TestCompositor::with_state(AppState::new());
    let layer = LayerId::middle();
    assert!(comp.insert_at(layer, probe(b"a", false)).is_ok());
    assert!(comp.insert_at(layer, probe(b"b", false)).is_ok());
    comp.replace_at(layer, probe(b"a", false));
    let (_comp, hits, consumed) = dispatch_user(comp, 1);
    assert_eq!(hits, vec![id(b"b"), id(b"a")]);
    assert!(!consumed);
}

#[test]
fn scenario_single_consumer_owns_event() {
    // Mount component A (id x) at FOREGROUND, an observer elsewhere; A
    // consumes a user event; the registry still contains exactly A at
    // FOREGROUND and no other component observed the event.
    let mut comp = TestCompositor::with_state(AppState::new());
    let x = id(b"x");
    assert!(comp.insert_at(LayerId::foreground(), probe(b"x", true)).is_ok());
    assert!(comp.insert_at(LayerId::middle(), probe(b"observer", false)).is_ok());
    let (mut comp, hits, consumed) = dispatch_user(comp, 7);
    assert!(consumed);
    assert_eq!(hits, vec![x]);
    assert!(matches!(comp.get_at(LayerId::foreground(), x), Some(TestComp::Probe(_))));
    assert!(comp.remove_at(LayerId::foreground(), x));
    assert!(!comp.remove_at(LayerId::foreground(), x));
}

#[test]
fn scenario_popup_consumes_before_lower_layer() {
    // P at POPUP above A at FOREGROUND; both would handle the event; P
    // consumes first, so A's handler is never invoked.
    let mut comp = TestCompositor::with_state(AppState::new());
    let p = id(b"popup");
    assert!(comp.insert_at(LayerId::popup(), probe(b"popup", true)).is_ok());
    assert!(comp.insert_at(LayerId::foreground(), probe(b"a", true)).is_ok());
    let (_comp, hits, consumed) = dispatch_user(comp, 7);
    assert!(consumed);
    assert_eq!(hits, vec![p]);
}

#[test]
fn dispatch_order_is_top_down_then_insertion_order() {
    let mut comp = TestCompositor::with_state(AppState::new());
    assert!(comp.insert_at(LayerId::background(), probe(b"bg1", false)).is_ok());
    assert!(comp.insert_at(LayerId::background(), probe(b"bg2", false)).is_ok());
    assert!(comp.insert_at(LayerId::overlay(), probe(b"ov1", false)).is_ok());
    assert!(comp.insert_at(LayerId::overlay(), probe(b"ov2", false)).is_ok());
    assert!(comp.insert_at(LayerId::middle(), probe(b"mid", false)).is_ok());
    let (_comp, hits, consumed) = dispatch_user(comp, 3);
    assert!(!consumed);
    assert_eq!(hits, vec![id(b"ov1"), id(b"ov2"), id(b"mid"), id(b"bg1"), id(b"bg2")]);
}

#[test]
fn consumed_event_is_dispatched_to_nobody() {
    let mut comp = TestCompositor::with_state(AppState::new());
    assert!(comp.insert_at(LayerId::middle(), probe(b"m", false)).is_ok());
    let mut access = EventAccess::new(Event::Empty);
    assert!(access.is_consumed());
    let (comp, cbs, _jobs) = comp.dispatch_event(&mut access, area(), make_jobs());
    assert!(comp.state().hits.is_empty());
    assert!(cbs.is_empty());
}

#[test]
fn take_with_matching_type_unmounts() {
    let mut comp = TestCompositor::with_state(AppState::new());
    let layer = LayerId::middle();
    let x = id(b"x");
    assert!(comp.insert_at(layer, TestComp::Label(Label { id: x })).is_ok());
    let taken = comp.take_at(layer, x, |c| match c {
        TestComp::Label(l) => Ok(l),
        other => Err(other),
    });
    assert_eq!(taken, Some(Label { id: x }));
    assert!(comp.get_at(layer, x).is_none());
}

#[test]
fn take_with_mismatched_type_leaves_registry_identical() {
    // A two-phase unmount that fails its typed conversion must leave the
    // component mounted exactly as before: same occupant, same position.
    let mut comp = TestCompositor::with_state(AppState::new());
    let layer = LayerId::middle();
    let x = id(b"x");
    assert!(comp.insert_at(layer, probe(b"p1", false)).is_ok());
    assert!(comp.insert_at(layer, TestComp::Label(Label { id: x })).is_ok());
    assert!(comp.insert_at(layer, probe(b"p2", false)).is_ok());
    // Ask for a Probe under an id that holds a Label.
    let taken: Option<Probe> = comp.take_at(layer, x, |c| match c {
        TestComp::Probe(p) => Ok(p),
        other => Err(other),
    });
    assert_eq!(taken, None);
    // Same occupant under the id.
    assert_eq!(comp.get_at(layer, x), Some(&TestComp::Label(Label { id: x })));
    // Same position: dispatch order over the layer is unchanged.
    let (_comp, hits, _) = dispatch_user(comp, 1);
    assert_eq!(hits, vec![id(b"p1"), id(b"p2")]);
}

#[test]
fn take_absent_id_returns_nothing() {
    let mut comp = TestCompositor::with_state(AppState::new());
    let taken: Option<Probe> = comp.take_at(LayerId::middle(), id(b"ghostly"), |c| match c {
        TestComp::Probe(p) => Ok(p),
        other => Err(other),
    });
    assert_eq!(taken, None);
}

#[test]
fn remove_all_clears_id_from_every_layer() {
    let mut comp = TestCompositor::with_state(AppState::new());
    let x = id(b"x");
    assert!(comp.insert_at(LayerId::background(), probe(b"x", false)).is_ok());
    assert!(comp.insert_at(LayerId::popup(), probe(b"x", false)).is_ok());
    assert!(comp.insert_at(LayerId::popup(), probe(b"other", false)).is_ok());
    comp.remove_all(x);
    assert!(comp.get_at(LayerId::background(), x).is_none());
    assert!(comp.get_at(LayerId::popup(), x).is_none());
    assert!(comp.get_at(LayerId::popup(), id(b"other")).is_some());
}

#[test]
fn get_mut_changes_behaviour_in_place() {
    let mut comp = TestCompositor::with_state(AppState::new());
    let layer = LayerId::foreground();
    let x = id(b"x");
    assert!(comp.insert_at(layer, probe(b"x", false)).is_ok());
    match comp.get_mut_at(layer, x) {
        Some(TestComp::Probe(p)) => p.consumes = true,
        other => panic!("expected the probe, got {other:?}"),
    }
    assert!(comp.get_mut_at(layer, id(b"absent")).is_none());
    let (_comp, hits, consumed) = dispatch_user(comp, 2);
    assert!(consumed);
    assert_eq!(hits, vec![x]);
}

#[test]
fn exit_event_short_circuits_cycle() {
    // Emitting Exit performs no dispatch, runs no callback and asks for no
    // render; the loop is told to end.
    let mut comp = TestCompositor::with_state(AppState::new());
    assert!(comp.insert_at(LayerId::topmost(), probe(b"watcher", false)).is_ok());
    assert!(!comp.is_exiting());
    let (comp, _jobs, render) = comp.dispatch_cycle(Resume::Event(Event::Exit), area(), make_jobs());
    assert!(!render);
    assert!(comp.is_exiting());
    assert!(comp.state().hits.is_empty());
    assert!(comp.get_at(LayerId::topmost(), id(b"watcher")).is_some());
}

#[test]
fn exit_via_callback_stops_render() {
    // A component that reacts to the event by queueing an exit callback:
    // the callback runs after dispatch and suppresses the render pass.
    let mut comp: Compositor<AppState, u32, Quitter, Cb> =
        Compositor::with_state(AppState::new());
    assert!(comp.insert_at(LayerId::middle(), Quitter { id: id(b"q") }).is_ok());
    let (tx, _rx) = tokio::sync::mpsc::channel(4);
    let (comp, _jobs, render) =
        comp.dispatch_cycle(Resume::Event(Event::User(1)), area(), Jobs::new(tx));
    assert!(comp.is_exiting());
    assert!(!render);
}

#[test]
fn callbacks_run_after_dispatch_in_fifo_order() {
    // Callbacks queued during dispatch are applied afterwards, in enqueue
    // order, with full registry access.
    let mut comp: Compositor<AppState, u32, Mounter, MCb> =
        Compositor::with_state(AppState { text: String::new(), hits: Vec::new() });
    assert!(comp.insert_at(LayerId::middle(), Mounter { id: id(b"m") }).is_ok());
    let (tx, _rx) = tokio::sync::mpsc::channel(4);
    let (comp, _jobs, render) =
        comp.dispatch_cycle(Resume::Event(Event::Tick), area(), Jobs::new(tx));
    assert!(render);
    assert_eq!(comp.state().text, "ab");
}

#[test]
fn job_callback_applies_like_a_dispatched_one() {
    // A job-delivered callback runs an otherwise empty dispatch cycle:
    // no component observes anything, but the callback's mutation lands.
    let mut comp = TestCompositor::with_state(AppState::new());
    let x = id(b"x");
    assert!(comp.insert_at(LayerId::middle(), probe(b"watcher", false)).is_ok());
    let (comp, jobs, render) =
        comp.dispatch_cycle(Resume::JobCallback(Cb::MountProbe(LayerId::popup(), x)), area(),
            make_jobs());
    assert!(render);
    assert!(comp.state().hits.is_empty());
    assert!(comp.get_at(LayerId::popup(), x).is_some());
    drop(jobs);
}

#[test]
fn render_reflects_state_only_after_job_callback() {
    // Before the job's callback is applied the rendered frame shows the
    // old text; the first render after it reflects the cleared field, and
    // unrelated ticks in between change nothing.
    let mut comp = TestCompositor::with_state(AppState::new());
    assert!(comp.insert_at(LayerId::middle(), TestComp::Label(Label { id: id(b"l") })).is_ok());

    let rat_area = ratatui::layout::Rect::new(0, 0, 20, 3);
    let render_first_cell = |comp: &TestCompositor| -> String {
        let mut buf = ratatui::buffer::Buffer::empty(rat_area);
        comp.render(area(), &mut buf);
        buf.cell((0u16, 0u16)).expect("cell in area").symbol().to_string()
    };

    // Two unrelated ticks: the text stays.
    let (comp, jobs, render) = comp.dispatch_cycle(Resume::Event(Event::Tick), area(), make_jobs());
    assert!(render);
    let (comp, _jobs, render) = comp.dispatch_cycle(Resume::Event(Event::Tick), area(), jobs);
    assert!(render);
    assert_eq!(render_first_cell(&comp), "h");

    // The job resolves to a callback clearing the text.
    let (comp, _jobs, render) =
        comp.dispatch_cycle(Resume::JobCallback(Cb::ClearText), area(), make_jobs());
    assert!(render);
    assert_eq!(comp.state().text, "");
    assert_eq!(render_first_cell(&comp), " ");
}

#[test]
fn job_bridge_delivers_callback_through_channel() {
    // A background job started on a runtime resolves after a delay to a
    // callback; the callback arrives through the merged channel and lands
    // exactly once.
    let rt = tokio::runtime::Builder::new_multi_thread()
        .enable_time()
        .build()
        .expect("runtime");
    rt.block_on(async {
        let (tx, mut rx) = tokio::sync::mpsc::channel::<Resume<u32, Cb>>(12);
        let jobs: Jobs<u32, Cb> = Jobs::new(tx);
        let sender = jobs.sender().clone();
        tokio::spawn(async move {
            tokio::time::sleep(std::time::Duration::from_millis(30)).await;
            sender.send(Resume::JobCallback(Cb::ClearText)).await.expect("jobs closed");
        });

        let mut comp = TestCompositor::with_state(AppState::new());
        assert!(comp.insert_at(LayerId::middle(), probe(b"w", false)).is_ok());
        // The loop processes an unrelated tick normally while the job runs.
        let (comp2, jobs, render) =
            comp.dispatch_cycle(Resume::Event(Event::Tick), area(), jobs);
        assert!(render);
        assert_eq!(comp2.state().text, "hello");
        // Then the job's resumption arrives and is applied.
        let resume = rx.recv().await.expect("job result");
        let (comp3, _jobs, render) = comp2.dispatch_cycle(resume, area(), jobs);
        assert!(render);
        assert_eq!(comp3.state().text, "");
    });
}

#[test]
fn timeout_configuration_controls_ticking() {
    let comp = TestCompositor::with_state(AppState::new());
    assert_eq!(comp.timeout_ms(), 3000);
    assert!(comp.tick_enabled());
    let comp = comp.with_timeout(0);
    assert_eq!(comp.timeout_ms(), 0);
    assert!(!comp.tick_enabled());
    let comp = comp.with_timeout(250);
    assert_eq!(comp.timeout_ms(), 250);
    assert!(comp.tick_enabled());
}

#[test]
fn should_update_can_skip_drawing() {
    // The Label ignores the dirty-check, the Probe declines once the text
    // is empty; render must still draw the Label.
    let mut comp = TestCompositor::with_state(AppState { text: String::new(), hits: Vec::new() });
    comp.state_mut().text.push('z');
    assert!(comp.insert_at(LayerId::middle(), TestComp::Label(Label { id: id(b"l") })).is_ok());
    let rat_area = ratatui::layout::Rect::new(0, 0, 10, 1);
    let mut buf = ratatui::buffer::Buffer::empty(rat_area);
    comp.render(area(), &mut buf);
    assert_eq!(buf.cell((0u16, 0u16)).expect("cell").symbol(), "z");
}

#[test]
fn stateless_compositor_builds_with_new() {
    let mut comp: Compositor<(), u32, Bare, BareCb> = Compositor::new();
    assert!(comp.insert_at(LayerId::middle(), Bare { id: id(b"n") }).is_ok());
    assert_eq!(comp.timeout_ms(), 3000);
}

#[test]
fn dispatch_on_empty_registry_consumes_nothing() {
    let comp = TestCompositor::with_state(AppState::new());
    let (comp, hits, consumed) = dispatch_user(comp, 9);
    assert!(hits.is_empty());
    assert!(!consumed);
    let (comp, _jobs, render) = comp.dispatch_cycle(Resume::Event(Event::Tick), area(), make_jobs());
    assert!(render);
    assert!(!comp.is_exiting());
}

#[test]
fn custom_layers_interleave_between_tiers() {
    let mut comp = TestCompositor::with_state(AppState::new());
    assert!(comp.insert_at(LayerId::foreground(), probe(b"fg", false)).is_ok());
    assert!(comp.insert_at(LayerId::popup(), probe(b"pop", false)).is_ok());
    assert!(comp.insert_at(LayerId(1500), probe(b"between", false)).is_ok());
    let (_comp, hits, _) = dispatch_user(comp, 1);
    assert_eq!(hits, vec![id(b"pop"), id(b"between"), id(b"fg")]);
}

#[test]
fn id_uniqueness_is_per_layer_not_global() {
    // The same id mounted in two layers: both are live; dispatch visits
    // the higher layer's occupant first.
    let mut comp = TestCompositor::with_state(AppState::new());
    let x = id(b"x");
    assert!(comp.insert_at(LayerId::foreground(), probe(b"x", false)).is_ok());
    assert!(comp.insert_at(LayerId::popup(), probe(b"x", false)).is_ok());
    let (comp, hits, _) = dispatch_user(comp, 1);
    assert_eq!(hits, vec![x, x]);
    // Removing from one layer leaves the other occupant alone.
    let mut comp = comp;
    assert!(comp.remove_at(LayerId::popup(), x));
    assert!(comp.get_at(LayerId::popup(), x).is_none());
    assert!(comp.get_at(LayerId::foreground(), x).is_some());
}

#[test]
fn remove_from_unknown_layer_reports_nothing_removed() {
    let mut comp = TestCompositor::with_state(AppState::new());
    assert!(!comp.remove_at(LayerId::overlay(), id(b"nobody")));
    comp.remove_all(id(b"nobody"));
}

#[test]
fn exit_request_suppresses_render_after_cycle() {
    let mut comp = TestCompositor::with_state(AppState::new());
    assert!(comp.insert_at(LayerId::middle(), probe(b"m", false)).is_ok());
    comp.exit();
    let (comp, _jobs, render) = comp.dispatch_cycle(Resume::Event(Event::Tick), area(), make_jobs());
    assert!(!render);
    assert!(comp.is_exiting());
}

#[test]
fn job_results_convert_to_callbacks() {
    let none: Option<Cb> = ().into_callback();
    assert!(none.is_none());
    let some: Option<Cb> = Some(Cb::Exit).into_callback();
    assert!(matches!(some, Some(Cb::Exit)));
    let nothing: Option<Cb> = None::<Cb>.into_callback();
    assert!(nothing.is_none());
}
