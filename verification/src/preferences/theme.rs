//! The style classes that the launcher's widgets are drawn with. The colors
//! and sizes that each class stands for belong to the program's theme.
use vstd::prelude::*;

verus! {

/// How a button is drawn.
#[derive(Debug, Clone, Copy, PartialEq, Eq, Structural)]
pub enum ButtonClass {
    /// A listed entry.
    Itemlist,
    /// The selected entry.
    ItemlistSelected,
    /// A button with no background, such as the favorite star.
    Transparent,
}

/// How a container is drawn.
#[derive(Debug, Clone, Copy, PartialEq, Eq, Structural)]
pub enum ContainerClass {
    Default,
    /// The launcher's window.
    MainContainer,
}

/// How a text is drawn.
#[derive(Debug, Clone, Copy, PartialEq, Eq, Structural)]
pub enum TextClass {
    Default,
    /// Dimmed text: section titles, shortcuts, the empty-list notice.
    TextDim,
    /// The secondary text of an entry.
    SecondaryText,
}

/// How the scrollable list is drawn.
#[derive(Debug, Clone, Copy, PartialEq, Eq, Structural)]
pub enum ScrollableClass {
    Default,
}

/// How the rule under the prompt is drawn.
#[derive(Debug, Clone, Copy, PartialEq, Eq, Structural)]
pub enum RuleClass {
    Default,
}

/// How the prompt's text input is drawn.
#[derive(Debug, Clone, Copy, PartialEq, Eq, Structural)]
pub enum TextInputClass {
    Default,
}

} // verus!
