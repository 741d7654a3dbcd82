//! The catalog: the plugins that are known, by category.

use vstd::prelude::*;
use vstd::string::*;

verus! {

/// The kinds of plugin that the catalog tells apart.
#[derive(Debug, Clone, Copy, PartialEq, Eq, Structural)]
pub enum Category {
    Themes,
    StatusBar,
    Plugins,
}

impl Category {
    /// The place of the category among the three: themes first, plugins
    /// last.
    pub open spec fn rank(self) -> int {
        match self {
            Category::Themes => 0,
            Category::StatusBar => 1,
            Category::Plugins => 2,
        }
    }

    /// The place of the category among the three.
    pub fn position(self) -> (place: u8)
        ensures
            place == self.rank(),
    {
        match self {
            Category::Themes => 0,
            Category::StatusBar => 1,
            Category::Plugins => 2,
        }
    }
}

/// The identifiers that a list of strings holds.
pub open spec fn names(list: Seq<String>) -> Set<Seq<char>> {
    Set::new(|id: Seq<char>| exists|i: int| 0 <= i < list.len() && #[trigger] list[i]@ == id)
}

/// The known plugins of each category. It does not change while the program
/// runs. An identifier may stand under more than one category; it is then a
/// plugin of each of them.
#[derive(Debug, Clone)]
pub struct Catalog {
    pub themes: Vec<String>,
    pub status_bars: Vec<String>,
    pub plugins: Vec<String>,
}

impl Catalog {
    /// The identifiers that the catalog lists under `category`.
    pub open spec fn listed(&self, category: Category) -> Set<Seq<char>> {
        match category {
            Category::Themes => names(self.themes@),
            Category::StatusBar => names(self.status_bars@),
            Category::Plugins => names(self.plugins@),
        }
    }
}

} // verus!
