//! The parsed session document: windows, their tabs, and whether a window is
//! currently open or recoverable from the closed section.

use vstd::prelude::*;

verus! {

/// One tab: a URL and a title. When the document carries no title the URL
/// stands in for it.
pub struct Tab {
    pub url: Vec<u8>,
    pub title: Vec<u8>,
}

/// Mathematical model of a `Tab`.
pub ghost struct TabV {
    pub url: Seq<u8>,
    pub title: Seq<u8>,
}

impl View for Tab {
    type V = TabV;

    open spec fn view(&self) -> TabV {
        TabV { url: self.url@, title: self.title@ }
    }
}

/// One window: its title (possibly empty), whether it is currently open, and
/// its tabs in document order.
pub struct Window {
    pub title: Vec<u8>,
    pub open: bool,
    pub tabs: Vec<Tab>,
}

/// Mathematical model of a `Window`.
pub ghost struct WindowV {
    pub title: Seq<u8>,
    pub open: bool,
    pub tabs: Seq<TabV>,
}

impl View for Window {
    type V = WindowV;

    open spec fn view(&self) -> WindowV {
        WindowV { title: self.title@, open: self.open, tabs: self.tabs@.map_values(|t: Tab| t@) }
    }
}

/// The parsed session: all windows in document order, the open ones before
/// the closed ones.
pub struct SessionTree {
    pub windows: Vec<Window>,
}

impl View for SessionTree {
    type V = Seq<WindowV>;

    open spec fn view(&self) -> Seq<WindowV> {
        self.windows@.map_values(|w: Window| w@)
    }
}

} // verus!
