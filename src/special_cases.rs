//! Engine classes that the dispatch table leaves out.
use crate::text::str_eq;
use vstd::prelude::*;
use vstd::string::*;

verus! {

/// Classes whose API the engine marks experimental.
pub open spec fn experimental_class(name: Seq<char>) -> bool {
    name == "AudioSample"@
        || name == "AudioSamplePlayback"@
        || name == "Compositor"@
        || name == "CompositorEffect"@
        || name == "GraphEdit"@
        || name == "GraphElement"@
        || name == "GraphFrame"@
        || name == "GraphNode"@
        || name == "NavigationAgent2D"@
        || name == "NavigationAgent3D"@
        || name == "NavigationLink2D"@
        || name == "NavigationLink3D"@
        || name == "NavigationMesh"@
        || name == "NavigationMeshSourceGeometryData2D"@
        || name == "NavigationMeshSourceGeometryData3D"@
        || name == "NavigationObstacle2D"@
        || name == "NavigationObstacle3D"@
        || name == "NavigationPathQueryParameters2D"@
        || name == "NavigationPathQueryParameters3D"@
        || name == "NavigationPathQueryResult2D"@
        || name == "NavigationPathQueryResult3D"@
        || name == "NavigationPolygon"@
        || name == "NavigationRegion2D"@
        || name == "NavigationRegion3D"@
        || name == "NavigationServer2D"@
        || name == "NavigationServer3D"@
        || name == "Parallax2D"@
        || name == "SkeletonModification2D"@
        || name == "SkeletonModification2DCCDIK"@
        || name == "SkeletonModification2DFABRIK"@
        || name == "SkeletonModification2DJiggle"@
        || name == "SkeletonModification2DLookAt"@
        || name == "SkeletonModification2DPhysicalBones"@
        || name == "SkeletonModification2DStackHolder"@
        || name == "SkeletonModification2DTwoBoneIK"@
        || name == "SkeletonModificationStack2D"@
        || name == "StreamPeerGZIP"@
        || name == "XRBodyModifier3D"@
        || name == "XRBodyTracker"@
        || name == "XRFaceModifier3D"@
        || name == "XRFaceTracker"@
}

/// Whether the engine marks the class `godot_class_name` experimental.
pub fn is_class_experimental(godot_class_name: &str) -> (r: bool)
    ensures
        r == experimental_class(godot_class_name@),
{
    str_eq(godot_class_name, "AudioSample")
        || str_eq(godot_class_name, "AudioSamplePlayback")
        || str_eq(godot_class_name, "Compositor")
        || str_eq(godot_class_name, "CompositorEffect")
        || str_eq(godot_class_name, "GraphEdit")
        || str_eq(godot_class_name, "GraphElement")
        || str_eq(godot_class_name, "GraphFrame")
        || str_eq(godot_class_name, "GraphNode")
        || str_eq(godot_class_name, "NavigationAgent2D")
        || str_eq(godot_class_name, "NavigationAgent3D")
        || str_eq(godot_class_name, "NavigationLink2D")
        || str_eq(godot_class_name, "NavigationLink3D")
        || str_eq(godot_class_name, "NavigationMesh")
        || str_eq(godot_class_name, "NavigationMeshSourceGeometryData2D")
        || str_eq(godot_class_name, "NavigationMeshSourceGeometryData3D")
        || str_eq(godot_class_name, "NavigationObstacle2D")
        || str_eq(godot_class_name, "NavigationObstacle3D")
        || str_eq(godot_class_name, "NavigationPathQueryParameters2D")
        || str_eq(godot_class_name, "NavigationPathQueryParameters3D")
        || str_eq(godot_class_name, "NavigationPathQueryResult2D")
        || str_eq(godot_class_name, "NavigationPathQueryResult3D")
        || str_eq(godot_class_name, "NavigationPolygon")
        || str_eq(godot_class_name, "NavigationRegion2D")
        || str_eq(godot_class_name, "NavigationRegion3D")
        || str_eq(godot_class_name, "NavigationServer2D")
        || str_eq(godot_class_name, "NavigationServer3D")
        || str_eq(godot_class_name, "Parallax2D")
        || str_eq(godot_class_name, "SkeletonModification2D")
        || str_eq(godot_class_name, "SkeletonModification2DCCDIK")
        || str_eq(godot_class_name, "SkeletonModification2DFABRIK")
        || str_eq(godot_class_name, "SkeletonModification2DJiggle")
        || str_eq(godot_class_name, "SkeletonModification2DLookAt")
        || str_eq(godot_class_name, "SkeletonModification2DPhysicalBones")
        || str_eq(godot_class_name, "SkeletonModification2DStackHolder")
        || str_eq(godot_class_name, "SkeletonModification2DTwoBoneIK")
        || str_eq(godot_class_name, "SkeletonModificationStack2D")
        || str_eq(godot_class_name, "StreamPeerGZIP")
        || str_eq(godot_class_name, "XRBodyModifier3D")
        || str_eq(godot_class_name, "XRBodyTracker")
        || str_eq(godot_class_name, "XRFaceModifier3D")
        || str_eq(godot_class_name, "XRFaceTracker")
}

/// Classes that exist only on Android.
pub open spec fn android_class(name: Seq<char>) -> bool {
    name == "JavaClass"@ || name == "JavaClassWrapper"@ || name == "JavaObject"@ || name
        == "JNISingleton"@
}

/// Classes that exist only on the web.
pub open spec fn web_class(name: Seq<char>) -> bool {
    name == "JavaScriptBridge"@ || name == "JavaScriptObject"@
}

/// Thread primitives, which the bindings do not expose.
pub open spec fn thread_class(name: Seq<char>) -> bool {
    name == "Thread"@ || name == "Mutex"@ || name == "Semaphore"@
}

/// What the build is for: the target operating system and the opt-ins that
/// decide which classes exist.
pub struct BuildTarget {
    /// The target operating system, as Cargo names it (`android`, `ios`, ...).
    pub os: String,
    /// Whether classes with an experimental API are kept.
    pub experimental_api: bool,
    /// Whether the engine API is older than the release that reintroduced
    /// `UniformSetCacheRD`.
    pub api_before_uniform_set_cache: bool,
}

/// Whether `name` starts with `prefix`.
pub open spec fn has_prefix(name: Seq<char>, prefix: Seq<char>) -> bool {
    prefix.len() <= name.len() && name.take(prefix.len() as int) == prefix
}

/// Whether the class `name` is left out of a build for `target`.
pub open spec fn type_deleted(name: Seq<char>, target: BuildTarget) -> bool {
    ||| !target.experimental_api && experimental_class(name)
    ||| has_prefix(name, "OpenXR"@) && (target.os@ == "ios"@ || target.os@ == "emscripten"@)
    ||| android_class(name) && target.os@ != "android"@
    ||| web_class(name) && target.os@ != "emscripten"@
    ||| thread_class(name)
    ||| name == "UniformSetCacheRD"@ && target.api_before_uniform_set_cache
}

fn starts_with_str(s: &str, prefix: &str) -> (r: bool)
    ensures
        r == has_prefix(s@, prefix@),
{
    let m = prefix.unicode_len();
    if m > s.unicode_len() {
        return false;
    }
    str_eq(s.substring_char(0, m), prefix)
}

/// Whether the class `godot_ty` is left out of a build for `target`.
pub fn is_godot_type_deleted(godot_ty: &str, target: &BuildTarget) -> (r: bool)
    ensures
        r == type_deleted(godot_ty@, *target),
{
    let os = target.os.as_str();
    let experimental = !target.experimental_api && is_class_experimental(godot_ty);
    // OpenXR is missing on iOS and the web, for every class with that prefix.
    let openxr = starts_with_str(godot_ty, "OpenXR") && (str_eq(os, "ios") || str_eq(
        os,
        "emscripten",
    ));
    let android_only = (str_eq(godot_ty, "JavaClass") || str_eq(godot_ty, "JavaClassWrapper")
        || str_eq(godot_ty, "JavaObject") || str_eq(godot_ty, "JNISingleton")) && !str_eq(
        os,
        "android",
    );
    let web_only = (str_eq(godot_ty, "JavaScriptBridge") || str_eq(godot_ty, "JavaScriptObject"))
        && !str_eq(os, "emscripten");
    let thread = str_eq(godot_ty, "Thread") || str_eq(godot_ty, "Mutex") || str_eq(
        godot_ty,
        "Semaphore",
    );
    let uniform_set_cache = str_eq(godot_ty, "UniformSetCacheRD")
        && target.api_before_uniform_set_cache;
    experimental || openxr || android_only || web_only || thread || uniform_set_cache
}

} // verus!
