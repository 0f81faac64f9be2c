use crate::animation::animation::{
    after_advance, after_reset, after_set_current, after_set_mode, after_stop, after_toggle,
    sample_of, ticks, Animations, PartialTransform, PlaybackMode, PlaybackState,
};
use crate::animation::node::{
    graph_of, skins_transform, transform_plan, Nodes, ParentTransform, TransformStep,
};
use crate::animation::propagation::{carried_out, is_last_visit, lemma_plan_reads_updated_parent};
use crate::animation::skin::{joint_products, JointProduct, Skin};
use vstd::prelude::*;

verus! {

/// An animated, skinned model: its node hierarchy, its clips with their
/// playback controller, its skins, and the placement of the whole model.
#[derive(Debug)]
pub struct Model {
    pub name: String,
    pub animations: Option<Animations>,
    pub nodes: Nodes,
    pub global_transform: [[u32; 4]; 4],
    pub skins: Vec<Skin>,
}

/// The joint factors of one skin that has to be recomputed.
#[derive(Debug)]
pub struct SkinUpdate {
    /// Index of the skin among the model's skins.
    pub skin_index: usize,
    /// The factors of its joint matrices, in joint order.
    pub products: Vec<JointProduct>,
}

/// The skins to recompute for the first `k` skin references of the
/// hierarchy: each reference to an existing skin, in order, with the factors
/// of that skin's joint matrices under the root placement `root`. A
/// reference to a skin that the model does not have is skipped.
pub open spec fn skin_updates(
    refs: Seq<(usize, [[u32; 4]; 4])>,
    k: nat,
    skins: Seq<Skin>,
    root: [[u32; 4]; 4],
    nodes: Nodes,
) -> Seq<(usize, Seq<JointProduct>)>
    decreases k,
{
    if k == 0 {
        Seq::empty()
    } else {
        let rest = skin_updates(refs, (k - 1) as nat, skins, root, nodes);
        let skin_index = refs[k - 1].0;
        if skin_index < skins.len() {
            rest.push((skin_index, joint_products(skins[skin_index as int]@, root, nodes)))
        } else {
            rest
        }
    }
}

/// One of the three pieces of work that bring a model up to date after its
/// clock has moved.
#[derive(Clone, Copy, Debug, PartialEq, Eq, Structural)]
pub enum FramePhase {
    /// The sample of the current clip is written into the local transforms.
    WriteSample,
    /// The world placements are brought up to date, root to leaf, from the
    /// model's `global_transform`.
    Propagate,
    /// The joint matrices of the skins that nodes carry are recomputed.
    RecomputeSkins,
}

/// The work of one phase, planned on the model as it is when the phase
/// begins.
#[derive(Debug)]
pub enum FrameWork {
    /// The blends to evaluate and write into the nodes.
    WriteSample(Vec<(usize, PartialTransform)>),
    /// The propagation steps to carry out in order.
    Propagate(Vec<TransformStep>),
    /// The skins to recompute, each with the factors of its joint matrices.
    RecomputeSkins(Vec<SkinUpdate>),
}

/// The phases of a frame, in the order in which they are carried out: all
/// three after a tick that moved the clock, none after one that did not.
pub open spec fn frame_phases(updated: bool) -> Seq<FramePhase> {
    if updated {
        seq![FramePhase::WriteSample, FramePhase::Propagate, FramePhase::RecomputeSkins]
    } else {
        Seq::empty()
    }
}

/// The updates in `v` as plain values.
pub open spec fn updates_view(v: Seq<SkinUpdate>) -> Seq<(usize, Seq<JointProduct>)> {
    Seq::new(v.len(), |i: int| (v[i].skin_index, v[i].products@))
}

/// The controller state after `step`, if there is a controller.
pub open spec fn controller_after(
    before: Option<Animations>,
    after: Option<Animations>,
    step: spec_fn(PlaybackState, nat) -> PlaybackState,
) -> bool {
    match before {
        Some(a) => after matches Some(b) && b.clips() == a.clips() && b.state() == step(
            a.state(),
            a.clips().len(),
        ),
        None => after is None,
    }
}

impl Model {
    /// The sample of the current clip at the current time; empty without
    /// animations and without clips.
    pub open spec fn sample_spec(&self) -> Seq<(usize, PartialTransform)> {
        match self.animations {
            Some(a) if a.clips().len() > 0 => sample_of(
                a.clips()[a.state().current as int].tracks(),
                a.clips()[a.state().current as int].tracks().len(),
                a.sample_time_spec() as i64,
            ),
            _ => Seq::empty(),
        }
    }

    /// The propagation steps of the model: those of its hierarchy, with the
    /// model's `global_transform` as the placement of the roots.
    pub open spec fn propagation_spec(&self) -> Seq<TransformStep> {
        transform_plan(self.nodes.order(), Some(self.global_transform))
    }

    /// The skins to recompute: one update for each node that carries a skin of
    /// this model, in arena order, under the model's `global_transform`.
    pub open spec fn skin_updates_spec(&self) -> Seq<(usize, Seq<JointProduct>)> {
        skin_updates(
            skins_transform(self.nodes.arena(), self.nodes.arena().len()),
            skins_transform(self.nodes.arena(), self.nodes.arena().len()).len(),
            self.skins@,
            self.global_transform,
            self.nodes,
        )
    }

    /// Everything but the playback controller is as in `other`.
    pub open spec fn same_but_animations(&self, other: &Model) -> bool {
        &&& self.name == other.name
        &&& self.nodes == other.nodes
        &&& self.global_transform == other.global_transform
        &&& self.skins == other.skins
    }

    /// Advances the playback controller by `delta_time` ticks and says
    /// whether anything moved: `false` without animations, with a stopped or
    /// paused clock, and with no clip to play.
    ///
    /// After a `true`, the new pose is brought about by the phases of
    /// [`Model::frame_phases`], in that order. [`Model::frame_work`] plans the
    /// work of each phase, and the caller carries it out on the numbers
    /// before it asks for the next phase. After a `false` there is no phase
    /// and nothing changes.
    pub fn update(&mut self, delta_time: u64) -> (updated: bool)
        ensures
            final(self).same_but_animations(old(self)),
            controller_after(
                old(self).animations,
                final(self).animations,
                |s: PlaybackState, n: nat| after_advance(s, delta_time, n),
            ),
            updated == match old(self).animations {
                Some(a) => ticks(a.state(), a.clips().len()),
                None => false,
            },
    {
        match &mut self.animations {
            Some(animations) => animations.advance(delta_time),
            None => false,
        }
    }

    /// The phases that follow a tick, in order: the sample is written, the
    /// placements are propagated, the skins are recomputed. A tick that did
    /// not move the clock has no phase.
    pub fn frame_phases(updated: bool) -> (phases: Vec<FramePhase>)
        ensures
            phases@ == frame_phases(updated),
    {
        let mut phases: Vec<FramePhase> = Vec::new();
        if updated {
            phases.push(FramePhase::WriteSample);
            phases.push(FramePhase::Propagate);
            phases.push(FramePhase::RecomputeSkins);
        }
        assert(phases@ =~= frame_phases(updated));
        phases
    }

    /// Plans the work of `phase` on the model as it is now: the sample of
    /// the current clip, the propagation steps from `global_transform`, or
    /// the skins to recompute.
    pub fn frame_work(&self, phase: FramePhase) -> (work: FrameWork)
        ensures
            match phase {
                FramePhase::WriteSample => work matches FrameWork::WriteSample(entries)
                    && entries@ == self.sample_spec(),
                FramePhase::Propagate => work matches FrameWork::Propagate(steps) && steps@
                    == self.propagation_spec(),
                FramePhase::RecomputeSkins => work matches FrameWork::RecomputeSkins(updates)
                    && updates_view(updates@) == self.skin_updates_spec(),
            },
    {
        match phase {
            FramePhase::WriteSample => FrameWork::WriteSample(self.sample_animation()),
            FramePhase::Propagate => FrameWork::Propagate(self.propagation_plan()),
            FramePhase::RecomputeSkins => FrameWork::RecomputeSkins(self.skin_updates()),
        }
    }

    /// The propagation steps of the model: every step of the hierarchy's
    /// traversal order, with `global_transform` as the placement of the roots.
    pub fn propagation_plan(&self) -> (steps: Vec<TransformStep>)
        ensures
            steps@ == self.propagation_spec(),
    {
        self.nodes.transform(Some(self.global_transform))
    }

    /// The sample of the current clip at the current time; empty without
    /// animations.
    pub fn sample_animation(&self) -> (entries: Vec<(usize, PartialTransform)>)
        ensures
            entries@ == self.sample_spec(),
    {
        match &self.animations {
            Some(animations) => {
                let entries = animations.sample();
                assert(entries@ =~= self.sample_spec());
                entries
            },
            None => Vec::new(),
        }
    }

    /// Lists the skins to recompute after the world placements have changed:
    /// one update for each node that carries a skin of this model, in arena
    /// order, with the factors of the skin's joint matrices under the model's
    /// `global_transform`.
    pub fn skin_updates(&self) -> (updates: Vec<SkinUpdate>)
        ensures
            updates_view(updates@) == self.skin_updates_spec(),
    {
        let refs = self.nodes.get_skins_transform();
        let n: usize = refs.len();
        let mut updates: Vec<SkinUpdate> = Vec::new();
        let mut k: usize = 0;
        assert(updates_view(updates@) =~= skin_updates(
            refs@,
            0,
            self.skins@,
            self.global_transform,
            self.nodes,
        ));
        while k < n
            invariant
                n == refs@.len(),
                0 <= k <= n,
                updates_view(updates@) == skin_updates(
                    refs@,
                    k as nat,
                    self.skins@,
                    self.global_transform,
                    self.nodes,
                ),
            decreases n - k,
        {
            let skin_index: usize = refs[k].0;
            if skin_index < self.skins.len() {
                let ghost before = updates@;
                let products = self.skins[skin_index].compute_joints_matrices(
                    self.global_transform,
                    &self.nodes,
                );
                updates.push(SkinUpdate { skin_index, products });
                assert(updates_view(updates@) =~= updates_view(before).push(
                    (skin_index, products@),
                ));
            }
            k += 1;
        }
        updates
    }

    pub fn get_animation_playback_state(&self) -> (s: Option<PlaybackState>)
        ensures
            s == match self.animations {
                Some(a) => Some(a.state()),
                None => None,
            },
    {
        match &self.animations {
            Some(animations) => Some(*animations.get_playback_state()),
            None => None,
        }
    }

    pub fn set_current_animation(&mut self, animation_index: usize)
        ensures
            final(self).same_but_animations(old(self)),
            controller_after(
                old(self).animations,
                final(self).animations,
                |s: PlaybackState, n: nat| after_set_current(s, animation_index, n),
            ),
    {
        match &mut self.animations {
            Some(animations) => animations.set_current(animation_index),
            None => {},
        }
    }

    pub fn set_animation_playback_mode(&mut self, playback_mode: PlaybackMode)
        ensures
            final(self).same_but_animations(old(self)),
            controller_after(
                old(self).animations,
                final(self).animations,
                |s: PlaybackState, n: nat| after_set_mode(s, playback_mode),
            ),
    {
        match &mut self.animations {
            Some(animations) => animations.set_playback_mode(playback_mode),
            None => {},
        }
    }

    pub fn toggle_animation(&mut self)
        ensures
            final(self).same_but_animations(old(self)),
            controller_after(
                old(self).animations,
                final(self).animations,
                |s: PlaybackState, n: nat| after_toggle(s),
            ),
    {
        match &mut self.animations {
            Some(animations) => animations.toggle(),
            None => {},
        }
    }

    pub fn stop_animation(&mut self)
        ensures
            final(self).same_but_animations(old(self)),
            controller_after(
                old(self).animations,
                final(self).animations,
                |s: PlaybackState, n: nat| after_stop(s),
            ),
    {
        match &mut self.animations {
            Some(animations) => animations.stop(),
            None => {},
        }
    }

    pub fn reset_animation(&mut self)
        ensures
            final(self).same_but_animations(old(self)),
            controller_after(
                old(self).animations,
                final(self).animations,
                |s: PlaybackState, n: nat| after_reset(s),
            ),
    {
        match &mut self.animations {
            Some(animations) => animations.reset(),
            None => {},
        }
    }
}

/// After the propagation phase of a model has been carried out, the
/// placement of a node is the product of its parent's placement after the
/// phase and its own local placement, and a root has the model's
/// `global_transform`, for which `root` stands, in its parent's place.
///
/// `product` stands for the matrix product, `globals` and `locals` for the
/// placements of the nodes when the phase begins, and `k` is any step that is
/// the last visit of its node.
pub proof fn lemma_propagate_phase<M>(
    model: Model,
    roots: Seq<usize>,
    globals: Seq<M>,
    locals: Seq<M>,
    root: M,
    product: spec_fn(M, M) -> M,
    k: int,
)
    requires
        model.nodes.traverses(roots),
        globals.len() == model.nodes.arena().len(),
        0 <= k < model.nodes.order().len(),
        is_last_visit(model.nodes.order(), k),
    ensures
        ({
            let plan = model.propagation_spec();
            let after = carried_out(plan, plan.len(), globals, locals, root, product);
            after[plan[k].node as int] == product(
                match plan[k].parent {
                    ParentTransform::Node(p) => after[p as int],
                    _ => root,
                },
                locals[plan[k].node as int],
            )
        }),
{
    lemma_plan_reads_updated_parent(
        graph_of(model.nodes.arena()),
        roots,
        Some(model.global_transform),
        globals,
        locals,
        root,
        product,
        k,
    );
}

} // verus!
