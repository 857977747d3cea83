//! The viewer of a drawing: what is shown while the drawing is being rendered
//! at the size that the window needs.
//!
//! Sizes and zooms are measured by the window; the viewer decides on what was
//! found out about them.

use vstd::prelude::*;

verus! {

/// What is known when the viewer is painted.
#[derive(Debug, Clone, Copy, PartialEq, Eq, Structural)]
pub struct ViewerFacts {
    /// The zoom was settled before.
    pub zoomed: bool,
    /// The drawing's own size could be read.
    pub size_known: bool,
    /// A rendering of the drawing is at hand.
    pub rendered: bool,
    /// The picture of the card that the viewer was opened from is at hand.
    pub placeholder: bool,
    /// A rendering was asked for before.
    pub asked: bool,
}

/// The picture that the viewer paints.
#[derive(Debug, Clone, Copy, PartialEq, Eq, Structural)]
pub enum Shown {
    Rendering,
    Placeholder,
    Blank,
}

/// What painting the viewer comes to.
#[derive(Debug, Clone, Copy, PartialEq, Eq, Structural)]
pub struct ViewerPlan {
    /// The zoom of this frame is the one at which the drawing fills the window.
    pub fits: bool,
    /// That zoom is kept.
    pub keeps_fit: bool,
    pub shown: Shown,
    /// A rendering has to be asked for.
    pub asks: bool,
}

/// Without a settled zoom the drawing fills the window; that zoom is kept
/// where the drawing's own size is known. Without a rendering the picture of
/// the card stands in, and a rendering is asked for once.
pub open spec fn viewer_plan(f: ViewerFacts) -> ViewerPlan {
    ViewerPlan {
        fits: !f.zoomed,
        keeps_fit: !f.zoomed && f.size_known,
        shown: if f.rendered {
            Shown::Rendering
        } else if f.placeholder {
            Shown::Placeholder
        } else {
            Shown::Blank
        },
        asks: !f.rendered && !f.asked,
    }
}

/// See [`viewer_plan`].
pub fn plan_viewer(f: ViewerFacts) -> (r: ViewerPlan)
    ensures
        r == viewer_plan(f),
{
    let shown = if f.rendered {
        Shown::Rendering
    } else if f.placeholder {
        Shown::Placeholder
    } else {
        Shown::Blank
    };
    ViewerPlan {
        fits: !f.zoomed,
        keeps_fit: !f.zoomed && f.size_known,
        shown,
        asks: !f.rendered && !f.asked,
    }
}

/// The pointer over the drawing.
#[derive(Debug, Clone, Copy, PartialEq, Eq, Structural)]
pub enum ViewerPointer {
    Arrow,
    OpenHand,
    ClosedHand,
}

/// A closed hand while the drawing is dragged, an open one where it is larger
/// than the window and can be.
pub fn viewer_pointer(larger: bool, dragging: bool) -> (r: ViewerPointer)
    ensures
        r == (if dragging {
            ViewerPointer::ClosedHand
        } else if larger {
            ViewerPointer::OpenHand
        } else {
            ViewerPointer::Arrow
        }),
{
    if dragging {
        ViewerPointer::ClosedHand
    } else if larger {
        ViewerPointer::OpenHand
    } else {
        ViewerPointer::Arrow
    }
}

/// A rendering is never asked for twice, nor while one is at hand, and a
/// picture that is at hand is always shown.
pub proof fn law_rendering_is_asked_for_once(f: ViewerFacts)
    ensures
        viewer_plan(f).asks ==> !viewer_plan(ViewerFacts { asked: true, ..f }).asks,
        f.rendered ==> !viewer_plan(f).asks,
        f.rendered || f.placeholder ==> viewer_plan(f).shown != Shown::Blank,
{
}

/// Once kept, the zoom at which the drawing fills the window is not computed
/// again.
pub proof fn law_kept_fit_stays(f: ViewerFacts)
    ensures
        viewer_plan(f).keeps_fit ==> !viewer_plan(ViewerFacts { zoomed: true, ..f }).fits,
{
}

/// A settled zoom stays; without one the drawing fills the window. A rendering is
/// shown before the picture that stands in for it, and asked for where there is
/// none.
pub proof fn law_viewer_shows_the_best_picture(f: ViewerFacts)
    ensures
        f.zoomed ==> !viewer_plan(f).fits && !viewer_plan(f).keeps_fit,
        !f.zoomed ==> viewer_plan(f).fits && viewer_plan(f).keeps_fit == f.size_known,
        f.rendered ==> viewer_plan(f).shown == Shown::Rendering,
        !f.rendered && f.placeholder ==> viewer_plan(f).shown == Shown::Placeholder,
        !f.rendered && !f.placeholder ==> viewer_plan(f).shown == Shown::Blank,
        !f.rendered && !f.asked ==> viewer_plan(f).asks,
{
}

/// The hand is closed while the drawing is dragged, and open only over a drawing
/// that can be.
pub proof fn law_pointer_tells_what_can_be_dragged(larger: bool, dragging: bool, r: ViewerPointer)
    requires
        call_ensures(viewer_pointer, (larger, dragging), r),
    ensures
        r == ViewerPointer::ClosedHand <==> dragging,
        r == ViewerPointer::OpenHand <==> larger && !dragging,
{
}

} // verus!
