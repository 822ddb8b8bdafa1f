//! The scenes that can be rendered, by number.
use vstd::prelude::*;

verus! {

/// A scene that the renderer knows how to set up.
#[derive(Clone, Copy, Debug, PartialEq, Eq, Structural)]
pub enum Scene {
    ThreeSpheres,
    RandomSpheres,
    CheckeredSpheres,
    MarbledSpheres,
    Earth,
    SimpleLight,
    CornellBox,
    CornellSmoke,
    Final,
}

/// The scene with the number `i`; any number beyond the last scene stands
/// for the scene with the simple light.
pub open spec fn scene_of(i: usize) -> Scene {
    match i {
        0 => Scene::ThreeSpheres,
        1 => Scene::RandomSpheres,
        2 => Scene::CheckeredSpheres,
        3 => Scene::MarbledSpheres,
        4 => Scene::Earth,
        5 => Scene::SimpleLight,
        6 => Scene::CornellBox,
        7 => Scene::CornellSmoke,
        8 => Scene::Final,
        _ => Scene::SimpleLight,
    }
}

/// The scene with the number `i`, see [`scene_of`].
pub fn select_scene(i: usize) -> (scene: Scene)
    ensures
        scene == scene_of(i),
{
    match i {
        0 => Scene::ThreeSpheres,
        1 => Scene::RandomSpheres,
        2 => Scene::CheckeredSpheres,
        3 => Scene::MarbledSpheres,
        4 => Scene::Earth,
        5 => Scene::SimpleLight,
        6 => Scene::CornellBox,
        7 => Scene::CornellSmoke,
        8 => Scene::Final,
        _ => Scene::SimpleLight,
    }
}

} // verus!
