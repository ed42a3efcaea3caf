//! The decisions of the recursive radiance estimator: where a path ends,
//! which estimate a vertex takes, and when a sampled density may divide.

use vstd::prelude::*;
use crate::geom::{Param, MAX_NUM};
use crate::pdf::{random_index, MeanDensity};

verus! {

/// What the scene and the material said at the current vertex.
#[derive(Clone, Copy, Debug, PartialEq, Eq)]
pub enum Event {
    /// The ray hit nothing.
    Missed,
    /// The surface hit does not scatter (a light or an absorber).
    Absorbed,
    /// The surface scatters into one deterministic ray.
    Mirrored,
    /// The surface scatters by a density; `attenuation_valid` is false when the
    /// attenuation is not a number.
    Scattered { attenuation_valid: bool },
}

/// What the estimator returns for the current vertex.
#[derive(Clone, Copy, Debug, PartialEq, Eq)]
pub enum Step {
    /// Black: the path length budget is spent.
    Black,
    /// The environment's radiance along the ray.
    Environment,
    /// The surface's emission alone.
    Emitted,
    /// The attenuation times the radiance along the deterministic ray, with no
    /// division by a density.
    Specular,
    /// The emission plus the attenuated radiance along a direction drawn from
    /// the mixture, divided by the mixture's density there.
    Sampled,
}

/// The step for an event, at a depth of at least one.
pub open spec fn step_for(event: Event) -> Step {
    match event {
        Event::Missed => Step::Environment,
        Event::Absorbed => Step::Emitted,
        Event::Mirrored => Step::Specular,
        Event::Scattered { attenuation_valid } => if attenuation_valid {
            Step::Sampled
        } else {
            Step::Emitted
        },
    }
}

/// Decides the estimate at a vertex with `depth` bounces left: black when none
/// is left, whatever the scene holds; otherwise by the event.
pub fn next_step(depth: u32, event: Event) -> (r: Step)
    ensures
        depth == 0 ==> r == Step::Black,
        depth > 0 ==> r == step_for(event),
{
    if depth == 0 {
        return Step::Black;
    }
    match event {
        Event::Missed => Step::Environment,
        Event::Absorbed => Step::Emitted,
        Event::Mirrored => Step::Specular,
        Event::Scattered { attenuation_valid } => {
            if attenuation_valid {
                Step::Sampled
            } else {
                Step::Emitted
            }
        },
    }
}

/// The depth of the next bounce.
pub fn next_depth(depth: u32) -> (r: u32)
    requires
        depth > 0,
    ensures
        r == depth - 1,
{
    depth - 1
}

/// The range searched for the next hit: from 1/1000, which keeps a new ray
/// off the surface it leaves, to beyond every box.
pub fn query_range() -> (r: (Param, Param))
    ensures
        r.0.num == 1 && r.0.den == 1000,
        r.1.num == MAX_NUM && r.1.den == 1,
        r.0.wf() && r.1.wf(),
{
    (Param::new(1, 1000), Param::far())
}

/// A member of the mixture at a scattering vertex.
#[derive(Clone, Copy, Debug, PartialEq, Eq)]
pub enum Member {
    /// The density toward the light of this index.
    Light(usize),
    /// The material's own scattering density.
    Material,
}

/// The members of the mixture: the lights in order, then the material's density
/// when it has one.
pub fn mixture_members(lights: usize, material_pdf: bool) -> (r: Vec<Member>)
    requires
        lights < usize::MAX,
    ensures
        r@.len() == lights + if material_pdf { 1int } else { 0int },
        forall|i: int| 0 <= i < lights ==> #[trigger] r@[i] == Member::Light(i as usize),
        material_pdf ==> r@[lights as int] == Member::Material,
{
    let mut members: Vec<Member> = Vec::new();
    let mut i: usize = 0;
    while i < lights
        invariant
            i <= lights,
            members@.len() == i,
            forall|k: int| 0 <= k < i ==> #[trigger] members@[k] == Member::Light(k as usize),
        decreases lights - i,
    {
        members.push(Member::Light(i));
        i = i + 1;
    }
    if material_pdf {
        members.push(Member::Material);
    }
    members
}

/// Draws the member that picks the next direction, each with chance `1/n`.
pub fn pick_member(members: &Vec<Member>) -> (r: Member)
    requires
        members@.len() > 0,
    ensures
        members@.contains(r),
{
    let i = random_index(members.len());
    members[i]
}

/// A sampled estimate may divide by the mixture's density only where it is
/// positive; elsewhere the sample adds nothing.
pub fn density_usable(pdf_val: &MeanDensity) -> (r: bool)
    ensures
        r == (pdf_val.total > 0 && pdf_val.count > 0),
{
    pdf_val.total > 0 && pdf_val.count > 0
}

} // verus!
