//! The view registry: one view per output, created, replaced and dropped as
//! outputs come and go, sized by the compositor's configure events, and
//! rendered anew when the configuration changes.
//!
//! Outputs and surfaces are known here by the integers that identify them in
//! the session. Whatever a function hands back (a view to release, a surface
//! to draw) is for the host to carry out on the objects behind those integers.

use vstd::prelude::*;
use crate::config::{
    copy_text,
    effective_alpha,
    effective_radius,
    text_of,
    ArgsModel,
    DimlandArgs,
    Opacity,
};

verus! {

/// What a pixel buffer holds: the overlay of the given opacity and corner
/// radius, rendered at the given size.
#[derive(Clone, Copy, Debug, PartialEq, Eq, Structural)]
pub struct Buffer {
    pub alpha: Opacity,
    pub radius: u32,
    pub width: u32,
    pub height: u32,
}

/// What the compositor tells of an output.
#[derive(Clone, Debug, PartialEq, Eq)]
pub struct OutputInfo {
    /// The output's name, such as `DP-1`.
    pub name: Option<String>,
    /// The output's size in logical pixels.
    pub logical_size: Option<(i32, i32)>,
}

/// An output's description as a mathematical value.
pub struct OutputModel {
    pub name: Option<Seq<char>>,
    pub logical_size: Option<(i32, i32)>,
}

impl View for OutputInfo {
    type V = OutputModel;

    open spec fn view(&self) -> OutputModel {
        OutputModel { name: text_of(self.name), logical_size: self.logical_size }
    }
}

/// Where a view stands between its creation and its first commit.
#[derive(Clone, Copy, Debug, PartialEq, Eq, Structural)]
pub enum ViewPhase {
    /// The surface exists; its buffer is attached on the next configure event.
    PendingFirstConfigure,
    /// The buffer is attached and committed.
    Configured,
}

/// The view of one output.
#[derive(Clone, Debug, PartialEq, Eq)]
pub struct DimlandView {
    /// Set until the buffer has been attached and committed.
    pub first_configure: bool,
    /// Width that the compositor last configured, in pixels.
    pub width: u32,
    /// Height that the compositor last configured, in pixels.
    pub height: u32,
    /// The buffer that is, or is about to be, attached.
    pub buffer: Buffer,
    /// The identity of the view's surface.
    pub layer: u32,
    /// The identity of the output.
    pub output: u32,
    /// The output's name when the view was made.
    pub name: Option<String>,
}

/// A view as a mathematical value.
pub struct ViewModel {
    pub first_configure: bool,
    pub width: u32,
    pub height: u32,
    pub buffer: Buffer,
    pub layer: u32,
    pub output: u32,
    pub name: Option<Seq<char>>,
}

impl View for DimlandView {
    type V = ViewModel;

    open spec fn view(&self) -> ViewModel {
        ViewModel {
            first_configure: self.first_configure,
            width: self.width,
            height: self.height,
            buffer: self.buffer,
            layer: self.layer,
            output: self.output,
            name: text_of(self.name),
        }
    }
}

/// The views of a sequence as mathematical values.
pub open spec fn models(views: Seq<DimlandView>) -> Seq<ViewModel> {
    views.map_values(|v: DimlandView| v@)
}

/// What the host does to show a view: damage the surface `layer` over
/// `width` by `height` pixels, attach `buffer`, and commit.
#[derive(Clone, Copy, Debug, PartialEq, Eq, Structural)]
pub struct DrawCall {
    pub layer: u32,
    pub width: u32,
    pub height: u32,
    pub buffer: Buffer,
}

/// The phase of a view.
pub open spec fn phase_of(view: ViewModel) -> ViewPhase {
    if view.first_configure {
        ViewPhase::PendingFirstConfigure
    } else {
        ViewPhase::Configured
    }
}

/// The draw call that shows a view.
pub open spec fn draw_call_of(view: ViewModel) -> DrawCall {
    DrawCall { layer: view.layer, width: view.width, height: view.height, buffer: view.buffer }
}

/// What drawing a view comes to: its draw call while the first configure is
/// pending, nothing after.
pub open spec fn drawing_of(view: ViewModel) -> Option<DrawCall> {
    if view.first_configure {
        Some(draw_call_of(view))
    } else {
        None
    }
}

/// A fresh view: pending, and of no size until the compositor configures it.
pub open spec fn fresh_view(
    buffer: Buffer,
    layer: u32,
    output: u32,
    name: Option<Seq<char>>,
) -> ViewModel {
    ViewModel { first_configure: true, width: 0, height: 0, buffer, layer, output, name }
}

impl DimlandView {
    /// A fresh view.
    pub fn new(buffer: Buffer, layer: u32, output: u32, name: Option<String>) -> (view: DimlandView)
        ensures
            view@ == fresh_view(buffer, layer, output, text_of(name)),
    {
        DimlandView { first_configure: true, width: 0, height: 0, buffer, layer, output, name }
    }

    /// The view's phase.
    pub fn phase(&self) -> (phase: ViewPhase)
        ensures
            phase == phase_of(self@),
    {
        if self.first_configure {
            ViewPhase::PendingFirstConfigure
        } else {
            ViewPhase::Configured
        }
    }

    /// The draw call that shows the view, while its first configure is
    /// pending; `None` once the view is configured.
    pub fn draw(&self) -> (call: Option<DrawCall>)
        ensures
            call == drawing_of(self@),
    {
        if !self.first_configure {
            return None;
        }
        Some(
            DrawCall {
                layer: self.layer,
                width: self.width,
                height: self.height,
                buffer: self.buffer,
            },
        )
    }

    /// A copy of the view.
    pub fn duplicate(&self) -> (copy: DimlandView)
        ensures
            copy@ == self@,
    {
        DimlandView {
            first_configure: self.first_configure,
            width: self.width,
            height: self.height,
            buffer: self.buffer,
            layer: self.layer,
            output: self.output,
            name: copy_text(&self.name),
        }
    }
}

/// Whether an output of the given name is a target under the filter: there is
/// no filter, or the output bears the filter's name.
pub open spec fn is_target(filter: Option<Seq<char>>, name: Option<Seq<char>>) -> bool {
    filter is None || name == filter
}

/// Whether an output of the given name is a target under the filter.
pub fn targets(filter: &Option<String>, name: &Option<String>) -> (out: bool)
    ensures
        out == is_target(text_of(*filter), text_of(*name)),
{
    match filter {
        None => true,
        Some(wanted) => match name {
            Some(actual) => *actual == *wanted,
            None => false,
        },
    }
}

/// A signed size read as an unsigned one, modulo two to the thirty-second.
pub open spec fn as_unsigned(v: i32) -> u32 {
    if v >= 0 {
        v as u32
    } else {
        (v + 0x1_0000_0000) as u32
    }
}

/// The logical size of an output in unsigned pixels; nothing by nothing where
/// the compositor gives none.
pub open spec fn extent_of(logical_size: Option<(i32, i32)>) -> (u32, u32) {
    match logical_size {
        Some((w, h)) => (as_unsigned(w), as_unsigned(h)),
        None => (0, 0),
    }
}

fn to_unsigned(v: i32) -> (out: u32)
    ensures
        out == as_unsigned(v),
{
    if v >= 0 {
        v as u32
    } else {
        ((v as i64) + 0x1_0000_0000) as u32
    }
}

/// The registry and what it renders with.
#[derive(Clone, Debug, PartialEq, Eq)]
pub struct DimlandData {
    /// The opacity in force.
    pub alpha: Opacity,
    /// The corner radius in force.
    pub radius: u32,
    /// The views, in the order in which their outputs appeared.
    pub views: Vec<DimlandView>,
    /// Set once the compositor has closed a surface: the session is over.
    pub exit: bool,
}

/// The registry as a mathematical value.
pub struct DataModel {
    pub alpha: Opacity,
    pub radius: u32,
    pub views: Seq<ViewModel>,
    pub exit: bool,
}

impl View for DimlandData {
    type V = DataModel;

    open spec fn view(&self) -> DataModel {
        DataModel {
            alpha: self.alpha,
            radius: self.radius,
            views: models(self.views@),
            exit: self.exit,
        }
    }
}

/// The buffer of a new view of an output: at the output's logical size, with
/// the opacity and radius in force where the output is a target, and fully
/// transparent with square corners where it is not.
pub open spec fn planned_buffer(
    data: DataModel,
    filter: Option<Seq<char>>,
    info: OutputModel,
) -> Buffer {
    let shown = is_target(filter, info.name);
    Buffer {
        alpha: if shown {
            data.alpha
        } else {
            Opacity { bits: 0 }
        },
        radius: if shown {
            data.radius
        } else {
            0
        },
        width: extent_of(info.logical_size).0,
        height: extent_of(info.logical_size).1,
    }
}

/// The new view of an output.
pub open spec fn planned_view(
    data: DataModel,
    filter: Option<Seq<char>>,
    output: u32,
    info: OutputModel,
    layer: u32,
) -> ViewModel {
    fresh_view(planned_buffer(data, filter, info), layer, output, info.name)
}

/// Whether `i` is the place of the first view of `output`.
pub open spec fn is_first_of_output(views: Seq<ViewModel>, output: u32, i: int) -> bool {
    &&& 0 <= i < views.len()
    &&& views[i].output == output
    &&& forall|j: int| 0 <= j < i ==> (#[trigger] views[j]).output != output
}

/// Whether no view is of `output`.
pub open spec fn no_view_of_output(views: Seq<ViewModel>, output: u32) -> bool {
    forall|j: int| 0 <= j < views.len() ==> (#[trigger] views[j]).output != output
}

/// Whether `i` is the place of the first view on the surface `layer`.
pub open spec fn is_first_on_layer(views: Seq<ViewModel>, layer: u32, i: int) -> bool {
    &&& 0 <= i < views.len()
    &&& views[i].layer == layer
    &&& forall|j: int| 0 <= j < i ==> (#[trigger] views[j]).layer != layer
}

/// Whether no view is on the surface `layer`.
pub open spec fn no_view_on_layer(views: Seq<ViewModel>, layer: u32) -> bool {
    forall|j: int| 0 <= j < views.len() ==> (#[trigger] views[j]).layer != layer
}

/// The views of `output`, in order.
pub open spec fn views_of_output(views: Seq<ViewModel>, output: u32) -> Seq<ViewModel> {
    views.filter(|v: ViewModel| v.output == output)
}

/// The views of other outputs than `output`, in order.
pub open spec fn views_of_others(views: Seq<ViewModel>, output: u32) -> Seq<ViewModel> {
    views.filter(|v: ViewModel| v.output != output)
}

/// A view after a configure event that assigns it `size`. The view takes the
/// size. If its first configure was pending, its buffer is made anew at that
/// size and the view is configured from now on; if not, the buffer stays as
/// it is.
pub open spec fn configured(view: ViewModel, size: (u32, u32)) -> ViewModel {
    ViewModel {
        first_configure: false,
        width: size.0,
        height: size.1,
        buffer: if view.first_configure {
            Buffer { width: size.0, height: size.1, ..view.buffer }
        } else {
            view.buffer
        },
        ..view
    }
}

/// What the host does after a configure event.
#[derive(Clone, Copy, Debug, PartialEq, Eq, Structural)]
pub struct ConfigureReply {
    /// The surface that was configured.
    pub layer: u32,
    /// The width to scale the surface's viewport to.
    pub width: u32,
    /// The height to scale the surface's viewport to.
    pub height: u32,
    /// The draw call to carry out, on the first configure event of a view.
    pub draw: Option<DrawCall>,
}

/// The reply to a configure event that assigns `size` to `view`.
pub open spec fn reply_to(view: ViewModel, size: (u32, u32)) -> ConfigureReply {
    ConfigureReply {
        layer: view.layer,
        width: size.0,
        height: size.1,
        draw: if view.first_configure {
            Some(draw_call_of(configured(view, size)))
        } else {
            None
        },
    }
}

/// A view after the configuration changed: where its output is a target, its
/// buffer is made anew at the view's size with the opacity and radius in
/// force, and its first configure is pending again; where not, it is as
/// before.
pub open spec fn refreshed(
    view: ViewModel,
    alpha: Opacity,
    radius: u32,
    filter: Option<Seq<char>>,
) -> ViewModel {
    if is_target(filter, view.name) {
        ViewModel {
            first_configure: true,
            buffer: Buffer { alpha, radius, width: view.width, height: view.height },
            ..view
        }
    } else {
        view
    }
}

/// All views after the configuration changed.
pub open spec fn refreshed_views(
    views: Seq<ViewModel>,
    alpha: Opacity,
    radius: u32,
    filter: Option<Seq<char>>,
) -> Seq<ViewModel> {
    views.map_values(|v: ViewModel| refreshed(v, alpha, radius, filter))
}

/// The draw calls of the views whose outputs are targets, in order.
pub open spec fn target_draws(views: Seq<ViewModel>, filter: Option<Seq<char>>) -> Seq<DrawCall> {
    views.filter(|v: ViewModel| is_target(filter, v.name)).map_values(
        |v: ViewModel| draw_call_of(v),
    )
}

impl DimlandData {
    /// An empty registry that renders with the given opacity and radius.
    pub fn new(alpha: Opacity, radius: u32) -> (data: DimlandData)
        ensures
            data@ == (DataModel { alpha, radius, views: Seq::empty(), exit: false }),
    {
        let data = DimlandData { alpha, radius, views: Vec::new(), exit: false };
        assert(models(data.views@) =~= Seq::empty());
        data
    }

    /// Makes the view of `output`, to be shown on the surface `layer`, under
    /// the output filter of `args`.
    pub fn create_view(
        &self,
        args: &DimlandArgs,
        output: u32,
        info: OutputInfo,
        layer: u32,
    ) -> (view: DimlandView)
        ensures
            view@ == planned_view(self@, args@.output, output, info@, layer),
    {
        let shown = targets(&args.output, &info.name);
        let (alpha, radius) = if shown {
            (self.alpha, self.radius)
        } else {
            (Opacity { bits: 0 }, 0)
        };
        let (width, height) = match info.logical_size {
            Some((w, h)) => (to_unsigned(w), to_unsigned(h)),
            None => (0, 0),
        };
        DimlandView::new(Buffer { alpha, radius, width, height }, layer, output, info.name)
    }

    /// An output appeared: its view joins the registry, after the others.
    pub fn new_output(&mut self, args: &DimlandArgs, output: u32, info: OutputInfo, layer: u32)
        ensures
            final(self)@ == (DataModel {
                views: old(self)@.views.push(
                    planned_view(old(self)@, args@.output, output, info@, layer),
                ),
                ..old(self)@
            }),
    {
        let view = self.create_view(args, output, info, layer);
        let ghost before = models(self.views@);
        self.views.push(view);
        assert(models(self.views@) =~= before.push(view@));
    }

    /// The place of the first view of `output`.
    pub fn find_output(&self, output: u32) -> (place: Option<usize>)
        ensures
            match place {
                Some(i) => is_first_of_output(self@.views, output, i as int),
                None => no_view_of_output(self@.views, output),
            },
    {
        let mut i: usize = 0;
        while i < self.views.len()
            invariant
                i <= self.views.len(),
                forall|j: int| 0 <= j < i ==> (#[trigger] self@.views[j]).output != output,
            decreases self.views.len() - i,
        {
            if self.views[i].output == output {
                return Some(i);
            }
            i = i + 1;
        }
        None
    }

    /// The place of the first view on the surface `layer`.
    pub fn find_layer(&self, layer: u32) -> (place: Option<usize>)
        ensures
            match place {
                Some(i) => is_first_on_layer(self@.views, layer, i as int),
                None => no_view_on_layer(self@.views, layer),
            },
    {
        let mut i: usize = 0;
        while i < self.views.len()
            invariant
                i <= self.views.len(),
                forall|j: int| 0 <= j < i ==> (#[trigger] self@.views[j]).layer != layer,
            decreases self.views.len() - i,
        {
            if self.views[i].layer == layer {
                return Some(i);
            }
            i = i + 1;
        }
        None
    }

    /// An output changed: a new view is made for it and takes the place of
    /// the first view of that output. Returns the view that is no longer
    /// needed, for the host to release its buffer and viewport: the one that
    /// was replaced, or, where the registry has no view of the output, the new
    /// one.
    pub fn update_output(
        &mut self,
        args: &DimlandArgs,
        output: u32,
        info: OutputInfo,
        layer: u32,
    ) -> (discarded: DimlandView)
        ensures
            final(self)@.alpha == old(self)@.alpha,
            final(self)@.radius == old(self)@.radius,
            final(self)@.exit == old(self)@.exit,
            forall|i: int| #[trigger]
                is_first_of_output(old(self)@.views, output, i) ==> {
                    &&& final(self)@.views == old(self)@.views.update(
                        i,
                        planned_view(old(self)@, args@.output, output, info@, layer),
                    )
                    &&& discarded@ == old(self)@.views[i]
                },
            no_view_of_output(old(self)@.views, output) ==> {
                &&& final(self)@.views == old(self)@.views
                &&& discarded@ == planned_view(old(self)@, args@.output, output, info@, layer)
            },
    {
        let mut slot = self.create_view(args, output, info, layer);
        let ghost before = models(self.views@);
        let ghost made = slot@;
        match self.find_output(output) {
            Some(i) => {
                self.views.set_and_swap(i, &mut slot);
                assert(models(self.views@) =~= before.update(i as int, made));
                assert(!no_view_of_output(before, output)) by {
                    assert(before[i as int].output == output);
                }
                assert forall|k: int| #[trigger] is_first_of_output(before, output, k) implies k
                    == i by {
                    assert(before[k].output == output);
                    assert(before[i as int].output == output);
                }
            },
            None => {
                assert forall|k: int| !#[trigger] is_first_of_output(before, output, k) by {
                    if 0 <= k < before.len() {
                        assert(before[k].output != output);
                    }
                }
            },
        }
        slot
    }

    /// An output went away: its views leave the registry. Returns them, for
    /// the host to release their buffers and viewports.
    pub fn output_destroyed(&mut self, output: u32) -> (released: Vec<DimlandView>)
        ensures
            final(self)@ == (DataModel {
                views: views_of_others(old(self)@.views, output),
                ..old(self)@
            }),
            models(released@) == views_of_output(old(self)@.views, output),
    {
        let mut all: Vec<DimlandView> = Vec::new();
        core::mem::swap(&mut self.views, &mut all);
        let ghost before = models(all@);
        let mut kept: Vec<DimlandView> = Vec::new();
        let mut released: Vec<DimlandView> = Vec::new();
        proof {
            reveal(Seq::filter);
            assert(before.take(0) =~= Seq::<ViewModel>::empty());
            assert(models(kept@) =~= Seq::<ViewModel>::empty());
            assert(models(released@) =~= Seq::<ViewModel>::empty());
        }
        for view in it: all.into_iter()
            invariant
                it.seq() == all@,
                before == models(all@),
                models(kept@) == views_of_others(before.take(it.index()), output),
                models(released@) == views_of_output(before.take(it.index()), output),
        {
            proof {
                reveal(Seq::filter);
                let next = before.take(it.index() + 1);
                assert(next.drop_last() =~= before.take(it.index()));
                assert(next.last() == view@);
            }
            let ghost kept_before = models(kept@);
            let ghost released_before = models(released@);
            if view.output == output {
                released.push(view);
                assert(models(released@) =~= released_before.push(view@));
            } else {
                kept.push(view);
                assert(models(kept@) =~= kept_before.push(view@));
            }
        }
        assert(before.take(before.len() as int) =~= before);
        self.views = kept;
        released
    }

    /// The compositor configured the surface `layer` to `new_size`. The first
    /// view on that surface takes the size; on its first configure event its
    /// buffer is made anew at that size, to be drawn as the reply says.
    /// Returns `None`, and changes nothing, where no view is on the surface.
    pub fn configure(&mut self, layer: u32, new_size: (u32, u32)) -> (reply: Option<ConfigureReply>)
        ensures
            final(self)@.alpha == old(self)@.alpha,
            final(self)@.radius == old(self)@.radius,
            final(self)@.exit == old(self)@.exit,
            forall|i: int| #[trigger]
                is_first_on_layer(old(self)@.views, layer, i) ==> {
                    &&& final(self)@.views == old(self)@.views.update(
                        i,
                        configured(old(self)@.views[i], new_size),
                    )
                    &&& reply == Some(reply_to(old(self)@.views[i], new_size))
                },
            no_view_on_layer(old(self)@.views, layer) ==> {
                &&& final(self)@.views == old(self)@.views
                &&& reply is None
            },
    {
        let ghost before = models(self.views@);
        match self.find_layer(layer) {
            Some(i) => {
                let view = &self.views[i];
                let pending = view.first_configure;
                let buffer = if pending {
                    Buffer {
                        alpha: view.buffer.alpha,
                        radius: view.buffer.radius,
                        width: new_size.0,
                        height: new_size.1,
                    }
                } else {
                    view.buffer
                };
                let next = DimlandView {
                    first_configure: false,
                    width: new_size.0,
                    height: new_size.1,
                    buffer,
                    layer: view.layer,
                    output: view.output,
                    name: copy_text(&view.name),
                };
                let draw = if pending {
                    Some(
                        DrawCall {
                            layer: next.layer,
                            width: next.width,
                            height: next.height,
                            buffer: next.buffer,
                        },
                    )
                } else {
                    None
                };
                let reply = ConfigureReply {
                    layer: next.layer,
                    width: new_size.0,
                    height: new_size.1,
                    draw,
                };
                assert(next@ == configured(before[i as int], new_size));
                self.views.set(i, next);
                proof {
                    assert(models(self.views@) =~= before.update(
                        i as int,
                        configured(before[i as int], new_size),
                    ));
                    assert(!no_view_on_layer(before, layer)) by {
                        assert(before[i as int].layer == layer);
                    }
                    assert forall|k: int| #[trigger] is_first_on_layer(before, layer, k) implies k
                        == i by {
                        assert(before[k].layer == layer);
                        assert(before[i as int].layer == layer);
                    }
                }
                Some(reply)
            },
            None => {
                assert forall|k: int| !#[trigger] is_first_on_layer(before, layer, k) by {
                    if 0 <= k < before.len() {
                        assert(before[k].layer != layer);
                    }
                }
                None
            },
        }
    }

    /// Renders anew, with the opacity and radius in force, the views whose
    /// outputs are targets under `filter`. Returns their draw calls, in the
    /// order of the views.
    pub fn rerender(&mut self, filter: &Option<String>) -> (calls: Vec<DrawCall>)
        ensures
            final(self)@ == (DataModel {
                views: refreshed_views(
                    old(self)@.views,
                    old(self)@.alpha,
                    old(self)@.radius,
                    text_of(*filter),
                ),
                ..old(self)@
            }),
            calls@ == target_draws(final(self)@.views, text_of(*filter)),
    {
        let ghost before = models(self.views@);
        let ghost goal = refreshed_views(before, self.alpha, self.radius, text_of(*filter));
        let mut calls: Vec<DrawCall> = Vec::new();
        let mut i: usize = 0;
        proof {
            reveal(Seq::filter);
            assert(goal.take(0) =~= Seq::<ViewModel>::empty());
            assert(target_draws(goal.take(0), text_of(*filter)) =~= Seq::<DrawCall>::empty());
        }
        while i < self.views.len()
            invariant
                i <= self.views.len(),
                self.alpha == old(self).alpha,
                self.radius == old(self).radius,
                self.exit == old(self).exit,
                before == models(old(self).views@),
                goal == refreshed_views(before, self.alpha, self.radius, text_of(*filter)),
                self.views@.len() == before.len(),
                forall|j: int| 0 <= j < i ==> (#[trigger] self.views@[j])@ == goal[j],
                forall|j: int| i <= j < before.len() ==> (#[trigger] self.views@[j])@ == before[j],
                calls@ == target_draws(goal.take(i as int), text_of(*filter)),
            decreases self.views.len() - i,
        {
            let view = &self.views[i];
            let ghost drawn = calls@;
            proof {
                reveal(Seq::filter);
                let next = goal.take(i + 1);
                assert(next.drop_last() =~= goal.take(i as int));
                assert(next.last() == goal[i as int]);
                assert(goal[i as int] == refreshed(
                    before[i as int],
                    self.alpha,
                    self.radius,
                    text_of(*filter),
                ));
            }
            if targets(filter, &view.name) {
                let next = DimlandView {
                    first_configure: true,
                    width: view.width,
                    height: view.height,
                    buffer: Buffer {
                        alpha: self.alpha,
                        radius: self.radius,
                        width: view.width,
                        height: view.height,
                    },
                    layer: view.layer,
                    output: view.output,
                    name: copy_text(&view.name),
                };
                calls.push(
                    DrawCall {
                        layer: next.layer,
                        width: next.width,
                        height: next.height,
                        buffer: next.buffer,
                    },
                );
                self.views.set(i, next);
                proof {
                    let picked = goal.take(i + 1).filter(
                        |v: ViewModel| is_target(text_of(*filter), v.name),
                    );
                    let earlier = goal.take(i as int).filter(
                        |v: ViewModel| is_target(text_of(*filter), v.name),
                    );
                    assert(picked == earlier.push(goal[i as int]));
                    assert(picked.map_values(|v: ViewModel| draw_call_of(v)) =~= earlier.map_values(
                        |v: ViewModel| draw_call_of(v),
                    ).push(draw_call_of(goal[i as int])));
                }
            }
            i = i + 1;
        }
        proof {
            assert(goal.take(before.len() as int) =~= goal);
            assert(models(self.views@) =~= goal);
        }
        calls
    }

    /// The configuration changed: takes the opacity and radius of `args` and
    /// renders anew the views whose outputs are targets under its filter.
    pub fn apply_args(&mut self, args: &DimlandArgs) -> (calls: Vec<DrawCall>)
        ensures
            final(self)@ == (DataModel {
                alpha: effective_alpha(args@),
                radius: effective_radius(args@),
                views: refreshed_views(
                    old(self)@.views,
                    effective_alpha(args@),
                    effective_radius(args@),
                    args@.output,
                ),
                exit: old(self)@.exit,
            }),
            calls@ == target_draws(final(self)@.views, args@.output),
    {
        self.alpha = args.alpha_or_default();
        self.radius = args.radius_or_default();
        self.rerender(&args.output)
    }

    /// The compositor closed a surface: the session is over.
    pub fn closed(&mut self)
        ensures
            final(self)@ == (DataModel { exit: true, ..old(self)@ }),
    {
        self.exit = true;
    }
}

/// Whether no two views are of one output, and no two on one surface.
pub open spec fn one_view_each(views: Seq<ViewModel>) -> bool {
    forall|i: int, j: int|
        0 <= i < j < views.len() ==> (#[trigger] views[i]).output != (#[trigger] views[j]).output
            && views[i].layer != views[j].layer
}

/// A registry with one view per output stays so through every event, as long
/// as each output is announced once and each new view comes on a surface of
/// its own: when an output appears, when one changes, when one goes away,
/// when a surface is configured, and when the views are rendered anew.
pub proof fn lemma_one_view_each_is_kept(
    views: Seq<ViewModel>,
    data: DataModel,
    args_filter: Option<Seq<char>>,
    output: u32,
    info: OutputModel,
    layer: u32,
    size: (u32, u32),
    i: int,
)
    requires
        one_view_each(views),
    ensures
        no_view_of_output(views, output) && no_view_on_layer(views, layer) ==> one_view_each(
            views.push(planned_view(data, args_filter, output, info, layer)),
        ),
        is_first_of_output(views, output, i) && (no_view_on_layer(views, layer) || views[i].layer
            == layer) ==> one_view_each(
            views.update(i, planned_view(data, args_filter, output, info, layer)),
        ),
        one_view_each(views_of_others(views, output)),
        0 <= i < views.len() ==> one_view_each(views.update(i, configured(views[i], size))),
        one_view_each(refreshed_views(views, data.alpha, data.radius, args_filter)),
{
    let added = planned_view(data, args_filter, output, info, layer);
    if no_view_of_output(views, output) && no_view_on_layer(views, layer) {
        let next = views.push(added);
        assert forall|a: int, b: int| 0 <= a < b < next.len() implies (#[trigger] next[a]).output
            != (#[trigger] next[b]).output && next[a].layer != next[b].layer by {
            assert(next[a] == views[a]);
            if b < views.len() {
                assert(next[b] == views[b]);
            }
        }
    }
    if is_first_of_output(views, output, i) && (no_view_on_layer(views, layer) || views[i].layer
        == layer) {
        let next = views.update(i, added);
        assert forall|a: int, b: int| 0 <= a < b < next.len() implies (#[trigger] next[a]).output
            != (#[trigger] next[b]).output && next[a].layer != next[b].layer by {
            assert(views[a].output != views[b].output && views[a].layer != views[b].layer);
            if a == i {
                assert(views[i].output == output);
                assert(next[b] == views[b]);
            } else if b == i {
                assert(views[i].output == output);
                assert(next[a] == views[a]);
            } else {
                assert(next[a] == views[a] && next[b] == views[b]);
            }
        }
    }
    lemma_filter_keeps_one_view_each(views, output);
    if 0 <= i < views.len() {
        let next = views.update(i, configured(views[i], size));
        assert forall|a: int, b: int| 0 <= a < b < next.len() implies (#[trigger] next[a]).output
            != (#[trigger] next[b]).output && next[a].layer != next[b].layer by {
            assert(views[a].output != views[b].output && views[a].layer != views[b].layer);
        }
    }
    let anew = refreshed_views(views, data.alpha, data.radius, args_filter);
    assert forall|a: int, b: int| 0 <= a < b < anew.len() implies (#[trigger] anew[a]).output
        != (#[trigger] anew[b]).output && anew[a].layer != anew[b].layer by {
        assert(views[a].output != views[b].output && views[a].layer != views[b].layer);
    }
}

/// Taking an output's views away leaves one view per output.
proof fn lemma_filter_keeps_one_view_each(views: Seq<ViewModel>, output: u32)
    requires
        one_view_each(views),
    ensures
        one_view_each(views_of_others(views, output)),
        forall|k: int|
            0 <= k < views_of_others(views, output).len() ==> views.contains(
                #[trigger] views_of_others(views, output)[k],
            ),
    decreases views.len(),
{
    reveal(Seq::filter);
    let kept = views_of_others(views, output);
    if views.len() > 0 {
        let front = views.drop_last();
        assert(one_view_each(front)) by {
            assert forall|a: int, b: int| 0 <= a < b < front.len() implies (#[trigger] front[a]).output
                != (#[trigger] front[b]).output && front[a].layer != front[b].layer by {
                assert(front[a] == views[a] && front[b] == views[b]);
            }
        }
        lemma_filter_keeps_one_view_each(front, output);
        let before = views_of_others(front, output);
        assert forall|k: int| 0 <= k < kept.len() implies views.contains(#[trigger] kept[k]) by {
            if k < before.len() {
                assert(kept[k] == before[k]);
                let at = choose|at: int| 0 <= at < front.len() && front[at] == before[k];
                assert(views[at] == before[k]);
            } else {
                assert(kept[k] == views.last());
                assert(views[views.len() - 1] == kept[k]);
            }
        }
        assert forall|a: int, b: int| 0 <= a < b < kept.len() implies (#[trigger] kept[a]).output
            != (#[trigger] kept[b]).output && kept[a].layer != kept[b].layer by {
            if b < before.len() {
                assert(kept[a] == before[a] && kept[b] == before[b]);
            } else {
                assert(kept[a] == before[a]);
                assert(kept[b] == views.last());
                let at = choose|at: int| 0 <= at < front.len() && front[at] == before[a];
                assert(views[at] == kept[a]);
                assert(views[at].output != views[views.len() - 1].output);
            }
        }
    }
}

/// A change of configuration that names no output renders every view anew:
/// each view keeps its size and gets a buffer of that size with the opacity
/// and radius in force, and there is one draw call for each view, in order.
pub proof fn lemma_unfiltered_change_redraws_all(views: Seq<ViewModel>, alpha: Opacity, radius: u32)
    ensures
        refreshed_views(views, alpha, radius, None).len() == views.len(),
        forall|i: int|
            0 <= i < views.len() ==> (#[trigger] refreshed_views(views, alpha, radius, None)[i])
                == (ViewModel {
                first_configure: true,
                buffer: Buffer { alpha, radius, width: views[i].width, height: views[i].height },
                ..views[i]
            }),
        target_draws(refreshed_views(views, alpha, radius, None), None) == refreshed_views(
            views,
            alpha,
            radius,
            None,
        ).map_values(|v: ViewModel| draw_call_of(v)),
{
    let anew = refreshed_views(views, alpha, radius, None);
    lemma_no_filter_keeps_all(anew);
}

/// Without a filter every view is a target.
proof fn lemma_no_filter_keeps_all(views: Seq<ViewModel>)
    ensures
        views.filter(|v: ViewModel| is_target(None, v.name)) == views,
    decreases views.len(),
{
    reveal(Seq::filter);
    if views.len() > 0 {
        lemma_no_filter_keeps_all(views.drop_last());
        assert(views.drop_last().push(views.last()) =~= views);
    }
}

/// Whether a view's buffer is of the view's size.
pub open spec fn buffer_fits(view: ViewModel) -> bool {
    view.buffer.width == view.width && view.buffer.height == view.height
}

/// A view's buffer is of the view's size after the view's first configure
/// event, and again whenever the view is rendered anew. A later configure
/// event keeps the buffer, so the two differ from then until the next
/// rendering wherever that event brings another size.
pub proof fn lemma_buffer_fits_when_drawn(
    view: ViewModel,
    size: (u32, u32),
    alpha: Opacity,
    radius: u32,
    filter: Option<Seq<char>>,
)
    ensures
        view.first_configure ==> buffer_fits(configured(view, size)),
        !view.first_configure ==> configured(view, size).buffer == view.buffer,
        is_target(filter, view.name) ==> buffer_fits(refreshed(view, alpha, radius, filter)),
        reply_to(view, size).draw matches Some(call) ==> call.buffer.width == call.width
            && call.buffer.height == call.height,
        is_target(filter, view.name) ==> (drawing_of(
            refreshed(view, alpha, radius, filter),
        ) matches Some(call) && call.buffer.width == call.width && call.buffer.height
            == call.height),
{
}

/// Once an output is gone, no view of it is left, and the views of the other
/// outputs are all still there.
pub proof fn lemma_destroyed_output_leaves(views: Seq<ViewModel>, output: u32)
    ensures
        no_view_of_output(views_of_others(views, output), output),
        views_of_output(views_of_others(views, output), output).len() == 0,
        views_of_others(views, output).len() + views_of_output(views, output).len() == views.len(),
        no_view_of_output(views, output) ==> views_of_others(views, output) == views,
    decreases views.len(),
{
    reveal(Seq::filter);
    let others = views_of_others(views, output);
    assert forall|j: int| 0 <= j < others.len() implies (#[trigger] others[j]).output != output by {
        views.lemma_filter_pred(|v: ViewModel| v.output != output, j);
    }
    others.lemma_all_neg_filter_empty(|v: ViewModel| v.output == output);
    if views.len() > 0 {
        let front = views.drop_last();
        lemma_destroyed_output_leaves(front, output);
        if no_view_of_output(views, output) {
            assert(no_view_of_output(front, output)) by {
                assert forall|j: int| 0 <= j < front.len() implies (#[trigger] front[j]).output
                    != output by {
                    assert(front[j] == views[j]);
                }
            }
            assert(views.last() == views[views.len() - 1]);
            assert(front.push(views.last()) =~= views);
        }
    }
}

/// A view that joins the registry and whose output then goes away leaves the
/// registry as the output's going away alone would.
pub proof fn lemma_added_then_destroyed(views: Seq<ViewModel>, view: ViewModel)
    ensures
        views_of_others(views.push(view), view.output) == views_of_others(views, view.output),
        views_of_output(views.push(view), view.output) == views_of_output(
            views,
            view.output,
        ).push(view),
{
    reveal(Seq::filter);
    assert(views.push(view).drop_last() =~= views);
}

} // verus!
