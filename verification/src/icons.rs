//! Typed handles for the vendored Lucide icons (`assets/icons/*.svg`) that the
//! design uses beyond the component library's own bundle.

use vstd::prelude::*;

verus! {

#[derive(Debug, Clone, Copy, PartialEq, Eq, Structural)]
pub enum Lucide {
    Clock,
    Layers,
    Download,
    FileText,
    Pencil,
}

pub open spec fn icon_path_seq(i: Lucide) -> Seq<char> {
    match i {
        Lucide::Clock => "icons/clock.svg"@,
        Lucide::Layers => "icons/layers.svg"@,
        Lucide::Download => "icons/download.svg"@,
        Lucide::FileText => "icons/file-text.svg"@,
        Lucide::Pencil => "icons/pencil.svg"@,
    }
}

impl Lucide {
    /// The icon's asset path, under the `icons/<name>.svg` namespace.
    pub fn path(self) -> (r: &'static str)
        ensures
            r@ == icon_path_seq(self),
    {
        match self {
            Lucide::Clock => "icons/clock.svg",
            Lucide::Layers => "icons/layers.svg",
            Lucide::Download => "icons/download.svg",
            Lucide::FileText => "icons/file-text.svg",
            Lucide::Pencil => "icons/pencil.svg",
        }
    }
}

} // verus!
