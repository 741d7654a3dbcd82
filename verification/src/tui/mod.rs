//! The terminal interface: its tabs, and the keys it answers to.

use vstd::prelude::*;
use vstd::string::*;

use crate::catalog::Category;

pub mod input;

verus! {

/// The tab that is shown: one category, or all installed plugins together.
#[derive(Debug, Clone, Copy, PartialEq, Eq, Structural)]
pub enum WindowTab {
    All,
    Themes,
    StatusBar,
    Plugins,
}

impl WindowTab {
    /// The title of the tab, as text.
    pub open spec fn title(self) -> Seq<char> {
        match self {
            WindowTab::All => "All (1)"@,
            WindowTab::Themes => "Themes (2)"@,
            WindowTab::StatusBar => "Status Bar (3)"@,
            WindowTab::Plugins => "Plugins (4)"@,
        }
    }

    /// The category that the tab shows; `None` for the tab of all installed
    /// plugins.
    pub open spec fn spec_category(self) -> Option<Category> {
        match self {
            WindowTab::All => None,
            WindowTab::Themes => Some(Category::Themes),
            WindowTab::StatusBar => Some(Category::StatusBar),
            WindowTab::Plugins => Some(Category::Plugins),
        }
    }

    /// The title of the tab, with the digit key that selects it.
    pub fn repr(&self) -> (label: String)
        ensures
            label@ == self.title(),
    {
        match self {
            Self::All => "All (1)".to_owned(),
            Self::Themes => "Themes (2)".to_owned(),
            Self::StatusBar => "Status Bar (3)".to_owned(),
            Self::Plugins => "Plugins (4)".to_owned(),
        }
    }

    /// The position of the tab in the tab bar, from the left.
    pub fn index(&self) -> (position: usize)
        ensures
            position == match *self {
                WindowTab::All => 0usize,
                WindowTab::Themes => 1usize,
                WindowTab::StatusBar => 2usize,
                WindowTab::Plugins => 3usize,
            },
    {
        match self {
            Self::All => 0,
            Self::Themes => 1,
            Self::StatusBar => 2,
            Self::Plugins => 3,
        }
    }

    /// The category that the tab shows; `None` for the tab of all installed
    /// plugins.
    #[verifier::when_used_as_spec(spec_category)]
    pub fn category(self) -> (category: Option<Category>)
        ensures
            category == self.spec_category(),
    {
        match self {
            Self::All => None,
            Self::Themes => Some(Category::Themes),
            Self::StatusBar => Some(Category::StatusBar),
            Self::Plugins => Some(Category::Plugins),
        }
    }
}

} // verus!
