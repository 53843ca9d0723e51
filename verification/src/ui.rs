//! The frame pipeline: the component store together with the systems that
//! run against it, in a fixed order, once per frame.

use vstd::prelude::*;
use crate::button::{buttons_reacted, faces_of, ButtonSystem};
use crate::components::Stage;
use crate::constraint::Constraints;
use crate::entity::Entity;
use crate::event::{Event, EventSystem, Mouse};
use crate::geometry::{ElementBox, WindowSize};
use crate::layout::{LayoutError, LayoutSystem};
use crate::measure::{measured, refresh_content_sizes, Measurement};
use crate::shrinkwrap::{axis_wrapped, unmeasured, ShrinkwrapSystem};
use crate::storage::{FlaggedStorage, Storage};
use crate::variable::{Axis, VariableX, VariableY, VariableZ};
use crate::world::{Component, World};

verus! {

/// What went wrong in a frame. None of these stops the frame: the stages
/// after the one that comes upon it still run.
#[derive(Clone, Copy, Debug, PartialEq, Eq, Structural)]
#[allow(inconsistent_fields)]
pub enum UiError {
    /// A required constraint of the entity's set contradicts the required
    /// constraints already in force on that axis. The axis is not laid out in
    /// this frame.
    UnsatisfiableConstraints { entity: u32, axis: Axis },
    /// A constraint refers to an entity that is no longer live. The write of
    /// its solved value was skipped.
    DanglingConstraintReference { entity: Entity, axis: Axis },
    /// A marked entity has no measured content yet. It is not wrapped in this
    /// frame and tried again in the next; this is nothing to report.
    MissingMeasurement { entity: Entity },
    /// A constraint of the entity's set has a constant beyond what the solver
    /// holds exactly. The axis is not laid out in this frame.
    UnrepresentableConstraint { entity: u32, axis: Axis },
    /// The solver of the axis reported an invalid state of its own. It is
    /// rebuilt in the next frame.
    SolverFailure { axis: Axis },
}

/// How the stages of a frame ended.
#[derive(Debug)]
pub struct FrameReport {
    /// The marked live entities without measured content.
    pub missing: Vec<Entity>,
    /// How the horizontal layout pass ended: the entities whose write was
    /// skipped, or why the pass was cut short.
    pub layout_x: Result<Vec<Entity>, LayoutError>,
    /// How the vertical layout pass ended.
    pub layout_y: Result<Vec<Entity>, LayoutError>,
    /// How the paint-order layout pass ended.
    pub layout_z: Result<Vec<Entity>, LayoutError>,
}

/// The error a cut-short layout pass reports.
pub open spec fn as_ui_error(e: LayoutError) -> UiError {
    match e {
        LayoutError::UnsatisfiableConstraints { entity, axis } => UiError::UnsatisfiableConstraints {
            entity,
            axis,
        },
        LayoutError::UnrepresentableConstraint { entity, axis } => {
            UiError::UnrepresentableConstraint { entity, axis }
        },
        LayoutError::SolverFailure { axis } => UiError::SolverFailure { axis },
    }
}

/// The errors of one layout pass: one for each skipped write, or the one that
/// cut the pass short.
pub open spec fn pass_errors(r: Result<Vec<Entity>, LayoutError>, axis: Axis) -> Seq<UiError> {
    match r {
        Ok(stale) => Seq::new(
            stale@.len(),
            |i: int| UiError::DanglingConstraintReference { entity: stale@[i], axis },
        ),
        Err(e) => seq![as_ui_error(e)],
    }
}

/// Appends the errors of one layout pass.
fn push_pass_errors(out: &mut Vec<UiError>, r: &Result<Vec<Entity>, LayoutError>, axis: Axis)
    ensures
        final(out)@ == old(out)@ + pass_errors(*r, axis),
{
    match r {
        Ok(stale) => {
            let mut i: usize = 0;
            while i < stale.len()
                invariant
                    0 <= i <= stale.len(),
                    out@ == old(out)@ + pass_errors(*r, axis).take(i as int),
                    *r == Ok::<Vec<Entity>, LayoutError>(*stale),
                decreases stale.len() - i,
            {
                out.push(UiError::DanglingConstraintReference { entity: stale[i], axis });
                assert(pass_errors(*r, axis).take(i + 1) =~= pass_errors(*r, axis).take(
                    i as int,
                ).push(UiError::DanglingConstraintReference { entity: stale@[i as int], axis }));
                i += 1;
            }
            assert(pass_errors(*r, axis).take(i as int) =~= pass_errors(*r, axis));
        },
        Err(e) => {
            let error = match e {
                LayoutError::UnsatisfiableConstraints { entity, axis } => {
                    UiError::UnsatisfiableConstraints { entity: *entity, axis: *axis }
                },
                LayoutError::UnrepresentableConstraint { entity, axis } => {
                    UiError::UnrepresentableConstraint { entity: *entity, axis: *axis }
                },
                LayoutError::SolverFailure { axis } => UiError::SolverFailure { axis: *axis },
            };
            out.push(error);
            assert(out@ =~= old(out)@ + pass_errors(*r, axis));
        },
    }
}

impl FrameReport {
    /// What there is to report: the errors of the three layout passes, in the
    /// order of the axes. A missing measurement is not among them: it heals by
    /// itself in a later frame.
    pub open spec fn all_errors(&self) -> Seq<UiError> {
        pass_errors(self.layout_x, Axis::X) + pass_errors(self.layout_y, Axis::Y) + pass_errors(
            self.layout_z,
            Axis::Z,
        )
    }

    /// The entities left unwrapped for want of a measurement, each as the
    /// value that stands for it. They are tried again in the next frame and
    /// are nothing to report.
    pub open spec fn all_deferred(&self) -> Seq<UiError> {
        Seq::new(
            self.missing@.len(),
            |i: int| UiError::MissingMeasurement { entity: self.missing@[i] },
        )
    }

    /// Whether the frame went through without anything to report.
    pub fn is_clean(&self) -> (b: bool)
        ensures
            b == (self.all_errors().len() == 0),
    {
        let x = match &self.layout_x {
            Ok(stale) => stale.len() == 0,
            Err(_) => false,
        };
        let y = match &self.layout_y {
            Ok(stale) => stale.len() == 0,
            Err(_) => false,
        };
        let z = match &self.layout_z {
            Ok(stale) => stale.len() == 0,
            Err(_) => false,
        };
        x && y && z
    }

    /// What there is to report.
    pub fn errors(&self) -> (out: Vec<UiError>)
        ensures
            out@ == self.all_errors(),
    {
        let mut out: Vec<UiError> = Vec::new();
        push_pass_errors(&mut out, &self.layout_x, Axis::X);
        push_pass_errors(&mut out, &self.layout_y, Axis::Y);
        push_pass_errors(&mut out, &self.layout_z, Axis::Z);
        out
    }

    /// The entities left unwrapped for want of a measurement.
    pub fn deferred(&self) -> (out: Vec<UiError>)
        ensures
            out@ == self.all_deferred(),
    {
        let mut out: Vec<UiError> = Vec::new();
        let mut i: usize = 0;
        while i < self.missing.len()
            invariant
                0 <= i <= self.missing.len(),
                out@ == Seq::new(
                    i as nat,
                    |j: int| UiError::MissingMeasurement { entity: self.missing@[j] },
                ),
            decreases self.missing.len() - i,
        {
            out.push(UiError::MissingMeasurement { entity: self.missing[i] });
            assert(out@ =~= Seq::new(
                (i + 1) as nat,
                |j: int| UiError::MissingMeasurement { entity: self.missing@[j] },
            ));
            i += 1;
        }
        out
    }
}

/// The component store and the systems of the frame pipeline.
pub struct UI {
    pub world: World,
    pub shrinkwrap: ShrinkwrapSystem,
    pub layout_x: LayoutSystem<VariableX>,
    pub layout_y: LayoutSystem<VariableY>,
    pub layout_z: LayoutSystem<VariableZ>,
    pub event_system: EventSystem,
    pub button_system: ButtonSystem,
}

impl UI {
    /// The three layout engines are consistent with their solvers.
    pub open spec fn wf(&self) -> bool {
        self.layout_x.wf() && self.layout_y.wf() && self.layout_z.wf()
    }

    /// An empty world with its systems, none of which has run.
    pub fn new() -> (ui: UI)
        ensures
            ui.wf(),
            ui.world.pristine(),
            ui.event_system.previous() == Mouse::at_rest(),
            ui.event_system.hovered() == Set::<u32>::empty(),
            !ui.layout_x.is_ready() && ui.layout_x.cursor() == 0 && ui.layout_x.origin() == 0,
            !ui.layout_y.is_ready() && ui.layout_y.cursor() == 0 && ui.layout_y.origin() == 0,
            !ui.layout_z.is_ready() && ui.layout_z.cursor() == 0 && ui.layout_z.origin() == 0,
            ui.layout_x.viewport() is None && ui.layout_y.viewport() is None
                && ui.layout_z.viewport() is None,
    {
        UI {
            world: World::new(),
            shrinkwrap: ShrinkwrapSystem::new(),
            layout_x: LayoutSystem::new(),
            layout_y: LayoutSystem::new(),
            layout_z: LayoutSystem::new(),
            event_system: EventSystem::new(),
            button_system: ButtonSystem::new(),
        }
    }

    /// Hands in the pointer sample of the frame.
    pub fn update_mouse(&mut self, mouse: Mouse)
        ensures
            *final(self) == (UI { world: World { mouse, ..old(self).world }, ..*old(self) }),
    {
        self.world.mouse = mouse;
    }

    /// Attaches the record to the live entity `ent`, replacing the one of its
    /// kind that was there, or takes the record of that kind away where none
    /// is given. Taking away from an entity that is no longer live changes
    /// nothing: the record in that slot is not its own.
    pub fn update<C: Component>(&mut self, ent: Entity, may_component: Option<C>)
        requires
            may_component is Some ==> old(self).world.entities.is_live(ent),
        ensures
            C::rest_kept(&old(self).world, &final(self).world),
            C::records(&final(self).world) == (match may_component {
                Some(c) => C::records(&old(self).world).insert(ent.id(), c),
                None => if old(self).world.entities.is_live(ent) {
                    C::records(&old(self).world).remove(ent.id())
                } else {
                    C::records(&old(self).world)
                },
            }),
            *final(self) == (UI { world: final(self).world, ..*old(self) }),
    {
        if may_component.is_none() && !self.world.entities.is_alive(ent) {
            proof {
                C::lemma_rest_kept(&self.world);
            }
            return ;
        }
        C::set(&mut self.world, ent.id(), may_component);
    }

    /// The record of the given kind attached to the live entity `ent`.
    pub fn get<C: Component>(&self, ent: Entity) -> (r: Option<&C>)
        ensures
            r is Some <==> self.world.entities.is_live(ent) && C::records(
                &self.world,
            ).contains_key(ent.id()),
            r matches Some(v) ==> *v == C::records(&self.world)[ent.id()],
    {
        if !self.world.entities.is_alive(ent) {
            return None;
        }
        C::get(&self.world, ent.id())
    }

    /// Whether the live entity `ent` has the event in this frame.
    pub fn has_event(&self, ent: Entity, event: Event) -> (b: bool)
        ensures
            b == (self.world.entities.is_live(ent) && self.world.events@.contains_key(ent.id())
                && self.world.events@[ent.id()]@.contains(event)),
    {
        if !self.world.entities.is_alive(ent) {
            return false;
        }
        match self.world.events.get(ent.id()) {
            Some(events) => events.contains(event),
            None => false,
        }
    }

    /// The solved width and height of the live entity `ent`.
    pub fn get_size(&self, ent: Entity) -> (r: Option<(u32, u32)>)
        ensures
            r is Some <==> self.world.entities.is_live(ent)
                && self.world.element_boxes@.contains_key(ent.id()),
            r matches Some(size) ==> size.0 == self.world.element_boxes@[ent.id()].width && size.1
                == self.world.element_boxes@[ent.id()].height,
    {
        if !self.world.entities.is_alive(ent) {
            return None;
        }
        match self.world.element_boxes.get(ent.id()) {
            Some(elbox) => Some((elbox.width, elbox.height)),
            None => None,
        }
    }

    /// The solved position of the live entity `ent`.
    pub fn get_position(&self, ent: Entity) -> (r: Option<(i32, i32)>)
        ensures
            r is Some <==> self.world.entities.is_live(ent)
                && self.world.element_boxes@.contains_key(ent.id()),
            r matches Some(at) ==> at.0 == self.world.element_boxes@[ent.id()].x && at.1
                == self.world.element_boxes@[ent.id()].y,
    {
        if !self.world.entities.is_alive(ent) {
            return None;
        }
        match self.world.element_boxes.get(ent.id()) {
            Some(elbox) => Some((elbox.x, elbox.y)),
            None => None,
        }
    }

    /// The root of every layout.
    pub fn stage(&self) -> Stage {
        Stage
    }

    /// What a frame does to everything but the constraint stores, the texts
    /// and the rectangles: the viewport is stored, the content sizes are
    /// those of this frame, the interaction events are derived from the
    /// rectangles as the frame leaves them, and the rest stays as it was.
    pub open spec fn settled(
        &self,
        before: &UI,
        window: WindowSize,
        measurements: Seq<Measurement>,
        report: FrameReport,
    ) -> bool {
        let entities = &before.world.entities;
        &&& self.wf()
        &&& self.world.entities == before.world.entities
        &&& self.world.window_size == window
        &&& self.world.mouse == before.world.mouse
        &&& self.world.constraints_z == before.world.constraints_z
        &&& self.world.shrinkwraps == before.world.shrinkwraps
        &&& self.world.names == before.world.names
        &&& self.world.pictures == before.world.pictures
        &&& self.world.invisibles == before.world.invisibles
        &&& self.world.buttons == before.world.buttons
        &&& self.world.content_sizes@ == measured(entities, before.world.pictures@, measurements)
        &&& forall|e: Entity| #[trigger]
            report.missing@.contains(e) <==> entities.is_live(e) && unmeasured(
                entities,
                before.world.shrinkwraps@,
                self.world.content_sizes@,
                e.id(),
            )
        &&& forall|i: int, j: int|
            0 <= i < j < report.missing.len() ==> report.missing[i].id() < report.missing[j].id()
        &&& self.event_system.stepped(
            &before.event_system,
            entities,
            before.world.mouse,
            self.world.element_boxes@,
            self.world.events@,
        )
    }

    /// What a frame does to the constraint stores, the texts, the rectangles
    /// and the layout engines, stage by stage. `cx` and `cy` are the horizontal and the
    /// vertical constraint store between wrapping and the reaction of the
    /// buttons, which is how the layout passes see them; `b1` and `b2` are the
    /// rectangles after the horizontal and after the vertical pass.
    pub open spec fn staged(
        &self,
        before: &UI,
        window: WindowSize,
        report: FrameReport,
        cx: &FlaggedStorage<Constraints<VariableX>>,
        cy: &FlaggedStorage<Constraints<VariableY>>,
        b1: &Storage<ElementBox>,
        b2: &Storage<ElementBox>,
    ) -> bool {
        let entities = &before.world.entities;
        let markers = before.world.shrinkwraps@;
        let sizes = self.world.content_sizes@;
        &&& axis_wrapped(entities, markers, sizes, &before.world.constraints_x, cx)
        &&& axis_wrapped(entities, markers, sizes, &before.world.constraints_y, cy)
        &&& self.layout_x.passed(
            &before.layout_x,
            entities,
            cx,
            &before.world.element_boxes,
            b1,
            report.layout_x,
        )
        &&& self.layout_y.passed(&before.layout_y, entities, cy, b1, b2, report.layout_y)
        &&& self.layout_z.passed(
            &before.layout_z,
            entities,
            &before.world.constraints_z,
            b2,
            &self.world.element_boxes,
            report.layout_z,
        )
        &&& before.layout_x.owed(cx, report.layout_x)
        &&& before.layout_y.owed(cy, report.layout_y)
        &&& before.layout_z.owed(&before.world.constraints_z, report.layout_z)
        &&& before.layout_x.owed_in_place(cx, window, report.layout_x)
        &&& before.layout_y.owed_in_place(cy, window, report.layout_y)
        &&& before.layout_z.owed_in_place(&before.world.constraints_z, window, report.layout_z)
        &&& before.layout_x.drained_in_place(
            cx,
            window,
            entities,
            &before.world.element_boxes,
            b1,
            report.layout_x,
        )
        &&& before.layout_y.drained_in_place(cy, window, entities, b1, b2, report.layout_y)
        &&& before.layout_z.drained_in_place(
            &before.world.constraints_z,
            window,
            entities,
            b2,
            &self.world.element_boxes,
            report.layout_z,
        )
        &&& before.layout_x.steady(cx, window) ==> report.layout_x is Ok
            && report.layout_x->Ok_0@.len() == 0 && b1@ == before.world.element_boxes@
        &&& before.layout_y.steady(cy, window) ==> report.layout_y is Ok
            && report.layout_y->Ok_0@.len() == 0 && b2@ == b1@
        &&& before.layout_z.steady(&before.world.constraints_z, window) ==> report.layout_z is Ok
            && report.layout_z->Ok_0@.len() == 0 && self.world.element_boxes@ == b2@
        &&& report.layout_x is Ok ==> self.layout_x.rested()
        &&& report.layout_y is Ok ==> self.layout_y.rested()
        &&& report.layout_z is Ok ==> self.layout_z.rested()
        &&& self.layout_x.is_ready() ==> self.layout_x.viewport() == Some(window)
        &&& self.layout_y.is_ready() ==> self.layout_y.viewport() == Some(window)
        &&& self.layout_z.is_ready() ==> self.layout_z.viewport() == Some(window)
        &&& buttons_reacted(
            entities,
            before.world.buttons@,
            self.world.events@,
            faces_of(&before.world.texts, cx, cy),
            faces_of(&self.world.texts, &self.world.constraints_x, &self.world.constraints_y),
        )
    }

    /// One frame: the viewport and the measured sizes are taken in, the sets
    /// of marked entities are wrapped to their content, the three axes are
    /// laid out, the interaction events are derived from the rectangles so
    /// solved, and the buttons react to them. A stage that has something to
    /// report does not keep the later stages from running.
    ///
    /// That the frame returns is proved of the library's own code only: the
    /// three layout passes call into the solver, which takes its own tableau
    /// as sound, and constraint sets that drive its numbers out of the finite
    /// range can make such a call fail to return.
    pub fn maintain(&mut self, window: WindowSize, measurements: &Vec<Measurement>) -> (report:
        FrameReport)
        requires
            old(self).wf(),
        ensures
            final(self).settled(old(self), window, measurements@, report),
            exists|
                cx: FlaggedStorage<Constraints<VariableX>>,
                cy: FlaggedStorage<Constraints<VariableY>>,
                b1: Storage<ElementBox>,
                b2: Storage<ElementBox>,
            | #[trigger] final(self).staged(old(self), window, report, &cx, &cy, &b1, &b2),
    {
        self.world.window_size = window;
        refresh_content_sizes(
            &self.world.entities,
            &self.world.pictures,
            measurements,
            &mut self.world.content_sizes,
        );
        let missing = self.shrinkwrap.run(
            &self.world.entities,
            &self.world.shrinkwraps,
            &self.world.content_sizes,
            &mut self.world.constraints_x,
            &mut self.world.constraints_y,
        );
        let ghost cx = self.world.constraints_x;
        let ghost cy = self.world.constraints_y;
        let layout_x = self.layout_x.run(
            &self.world.entities,
            &window,
            &self.world.constraints_x,
            &mut self.world.element_boxes,
        );
        let ghost b1 = self.world.element_boxes;
        let layout_y = self.layout_y.run(
            &self.world.entities,
            &window,
            &self.world.constraints_y,
            &mut self.world.element_boxes,
        );
        let ghost b2 = self.world.element_boxes;
        let layout_z = self.layout_z.run(
            &self.world.entities,
            &window,
            &self.world.constraints_z,
            &mut self.world.element_boxes,
        );
        self.event_system.run(
            &self.world.entities,
            &self.world.mouse,
            &self.world.element_boxes,
            &mut self.world.events,
        );
        self.button_system.run(
            &self.world.entities,
            &self.world.buttons,
            &mut self.world.constraints_x,
            &mut self.world.constraints_y,
            &self.world.events,
            &mut self.world.texts,
        );
        let report = FrameReport { missing, layout_x, layout_y, layout_z };
        assert(self.staged(old(self), window, report, &cx, &cy, &b1, &b2));
        report
    }
}

} // verus!
