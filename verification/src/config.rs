//! The window-placement vocabulary of the configuration: where a UI surface
//! is anchored and on which shell layer it sits. Parsing the configuration
//! file itself is a collaborator's job; what the library owns is the meaning
//! of the anchor and layer names and the edge set an anchor stands for.

use vstd::prelude::*;

verus! {

/// The port the local server binds when the configuration names none.
pub const DEFAULT_PORT: u16 = 3497;

/// Where a UI surface is anchored on its monitor.
#[derive(Debug, Clone, Copy, PartialEq, Eq, Structural)]
pub enum Anchor {
    Top,
    Left,
    Right,
    Bottom,
    Center,
    TopLeft,
    TopRight,
    TopCenter,
    BottomLeft,
    BottomRight,
    BottomCenter,
}

/// The shell layer a UI surface sits on.
#[derive(Debug, Clone, Copy, PartialEq, Eq, Structural)]
pub enum Layer {
    Top,
    Bottom,
    Background,
    Overlay,
}

impl Default for Layer {
    /// The layer used when the configuration names none.
    fn default() -> (r: Layer)
        ensures
            r == Layer::Top,
    {
        Layer::Top
    }
}

/// What `str::to_lowercase` makes of a string: the result depends on the
/// characters alone.
pub uninterp spec fn lower_of(s: Seq<char>) -> Seq<char>;

/// Relies on `str::to_lowercase`: the Unicode lowercase form of the string.
#[verifier::external_body]
fn lowercase(s: &str) -> (r: String)
    ensures
        r@ == lower_of(s@),
{
    s.to_lowercase()
}

/// The anchor a lowercased name stands for, if any: the four sides, the
/// center, and the corner and side-center forms with or without a space.
pub open spec fn spec_anchor_of(lowered: Seq<char>) -> Option<Anchor> {
    if lowered == "top"@ {
        Some(Anchor::Top)
    } else if lowered == "left"@ {
        Some(Anchor::Left)
    } else if lowered == "right"@ {
        Some(Anchor::Right)
    } else if lowered == "bottom"@ {
        Some(Anchor::Bottom)
    } else if lowered == "center"@ {
        Some(Anchor::Center)
    } else if lowered == "top left"@ || lowered == "topleft"@ {
        Some(Anchor::TopLeft)
    } else if lowered == "top right"@ || lowered == "topright"@ {
        Some(Anchor::TopRight)
    } else if lowered == "top center"@ || lowered == "topcenter"@ {
        Some(Anchor::TopCenter)
    } else if lowered == "bottom left"@ || lowered == "bottomleft"@ {
        Some(Anchor::BottomLeft)
    } else if lowered == "bottom right"@ || lowered == "bottomright"@ {
        Some(Anchor::BottomRight)
    } else if lowered == "bottom center"@ || lowered == "bottomcenter"@ {
        Some(Anchor::BottomCenter)
    } else {
        None
    }
}

/// The edge settings an anchor stands for: for each edge, whether it is to be
/// anchored; an edge the anchor says nothing about is left as it is.
#[derive(Debug, Clone, Copy, PartialEq, Eq, Structural)]
pub struct AnchorEdges {
    pub top: Option<bool>,
    pub left: Option<bool>,
    pub right: Option<bool>,
    pub bottom: Option<bool>,
}

/// The edge settings of each anchor: a side anchors that side; a corner
/// anchors its two sides; a side-center anchors the side and releases the two
/// adjacent edges; the center releases all four.
pub open spec fn spec_edges(a: Anchor) -> AnchorEdges {
    match a {
        Anchor::Top => (AnchorEdges { top: Some(true), left: None, right: None, bottom: None }),
        Anchor::Left => (AnchorEdges { top: None, left: Some(true), right: None, bottom: None }),
        Anchor::Right => (AnchorEdges { top: None, left: None, right: Some(true), bottom: None }),
        Anchor::Bottom => (AnchorEdges { top: None, left: None, right: None, bottom: Some(true) }),
        Anchor::Center => (AnchorEdges {
            top: Some(false),
            left: Some(false),
            right: Some(false),
            bottom: Some(false),
        }),
        Anchor::TopLeft => (AnchorEdges {
            top: Some(true),
            left: Some(true),
            right: None,
            bottom: None,
        }),
        Anchor::TopRight => (AnchorEdges {
            top: Some(true),
            left: None,
            right: Some(true),
            bottom: None,
        }),
        Anchor::TopCenter => (AnchorEdges {
            top: Some(true),
            left: Some(false),
            right: Some(false),
            bottom: None,
        }),
        Anchor::BottomLeft => (AnchorEdges {
            top: None,
            left: Some(true),
            right: None,
            bottom: Some(true),
        }),
        Anchor::BottomRight => (AnchorEdges {
            top: None,
            left: None,
            right: Some(true),
            bottom: Some(true),
        }),
        Anchor::BottomCenter => (AnchorEdges {
            top: None,
            left: Some(false),
            right: Some(false),
            bottom: Some(true),
        }),
    }
}

impl Anchor {
    /// Parses an anchor name, case-insensitively.
    pub fn parse(s: &str) -> (r: Option<Anchor>)
        ensures
            r == spec_anchor_of(lower_of(s@)),
    {
        let l = lowercase(s);
        if l.eq(&String::from_str("top")) {
            Some(Anchor::Top)
        } else if l.eq(&String::from_str("left")) {
            Some(Anchor::Left)
        } else if l.eq(&String::from_str("right")) {
            Some(Anchor::Right)
        } else if l.eq(&String::from_str("bottom")) {
            Some(Anchor::Bottom)
        } else if l.eq(&String::from_str("center")) {
            Some(Anchor::Center)
        } else if l.eq(&String::from_str("top left")) || l.eq(&String::from_str("topleft")) {
            Some(Anchor::TopLeft)
        } else if l.eq(&String::from_str("top right")) || l.eq(&String::from_str("topright")) {
            Some(Anchor::TopRight)
        } else if l.eq(&String::from_str("top center")) || l.eq(&String::from_str("topcenter")) {
            Some(Anchor::TopCenter)
        } else if l.eq(&String::from_str("bottom left")) || l.eq(&String::from_str("bottomleft")) {
            Some(Anchor::BottomLeft)
        } else if l.eq(&String::from_str("bottom right")) || l.eq(
            &String::from_str("bottomright"),
        ) {
            Some(Anchor::BottomRight)
        } else if l.eq(&String::from_str("bottom center")) || l.eq(
            &String::from_str("bottomcenter"),
        ) {
            Some(Anchor::BottomCenter)
        } else {
            None
        }
    }

    /// The edge settings this anchor stands for.
    pub fn edges(&self) -> (r: AnchorEdges)
        ensures
            r == spec_edges(*self),
    {
        match self {
            Anchor::Top => AnchorEdges { top: Some(true), left: None, right: None, bottom: None },
            Anchor::Left => AnchorEdges { top: None, left: Some(true), right: None, bottom: None },
            Anchor::Right => AnchorEdges { top: None, left: None, right: Some(true), bottom: None },
            Anchor::Bottom => AnchorEdges {
                top: None,
                left: None,
                right: None,
                bottom: Some(true),
            },
            Anchor::Center => AnchorEdges {
                top: Some(false),
                left: Some(false),
                right: Some(false),
                bottom: Some(false),
            },
            Anchor::TopLeft => AnchorEdges {
                top: Some(true),
                left: Some(true),
                right: None,
                bottom: None,
            },
            Anchor::TopRight => AnchorEdges {
                top: Some(true),
                left: None,
                right: Some(true),
                bottom: None,
            },
            Anchor::TopCenter => AnchorEdges {
                top: Some(true),
                left: Some(false),
                right: Some(false),
                bottom: None,
            },
            Anchor::BottomLeft => AnchorEdges {
                top: None,
                left: Some(true),
                right: None,
                bottom: Some(true),
            },
            Anchor::BottomRight => AnchorEdges {
                top: None,
                left: None,
                right: Some(true),
                bottom: Some(true),
            },
            Anchor::BottomCenter => AnchorEdges {
                top: None,
                left: Some(false),
                right: Some(false),
                bottom: Some(true),
            },
        }
    }
}

/// The layer a configuration name stands for, if any: the exact lowercase
/// names.
pub open spec fn spec_layer_of(s: Seq<char>) -> Option<Layer> {
    if s == "top"@ {
        Some(Layer::Top)
    } else if s == "bottom"@ {
        Some(Layer::Bottom)
    } else if s == "background"@ {
        Some(Layer::Background)
    } else if s == "overlay"@ {
        Some(Layer::Overlay)
    } else {
        None
    }
}

impl Layer {
    /// Parses a layer name: the exact lowercase names only.
    pub fn parse(s: &str) -> (r: Option<Layer>)
        ensures
            r == spec_layer_of(s@),
    {
        let l = s.to_owned();
        if l.eq(&String::from_str("top")) {
            Some(Layer::Top)
        } else if l.eq(&String::from_str("bottom")) {
            Some(Layer::Bottom)
        } else if l.eq(&String::from_str("background")) {
            Some(Layer::Background)
        } else if l.eq(&String::from_str("overlay")) {
            Some(Layer::Overlay)
        } else {
            None
        }
    }
}

} // verus!
