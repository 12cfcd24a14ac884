//! Decisions of the layout selection menu. Drawing the menu and reading the
//! pointer are left to the host.

use vstd::prelude::*;

verus! {

/// The menu that lists the available layouts and opens the one chosen.
#[derive(Clone, Copy, Debug, PartialEq, Eq, Structural)]
pub struct LayoutsMenu;

/// What the pointer is doing to a layout button.
#[derive(Clone, Copy, Debug, PartialEq, Eq, Structural)]
pub enum ButtonInteraction {
    Clicked,
    Hovered,
    Idle,
}

/// How a layout button is drawn.
#[derive(Clone, Copy, Debug, PartialEq, Eq, Structural)]
pub enum ButtonLook {
    Normal,
    Hovered,
    Pressed,
}

/// The menu's answer to an interaction with one layout button.
#[derive(Clone, Copy, Debug, PartialEq, Eq, Structural)]
pub struct MenuResponse {
    /// How the button is to be drawn.
    pub look: ButtonLook,
    /// Whether the button's layout is to be loaded, leaving the menu.
    pub open_layout: bool,
}

impl LayoutsMenu {
    /// A click presses the button and opens its layout; hovering highlights
    /// it; otherwise it is drawn plainly.
    pub fn respond(&self, interaction: ButtonInteraction) -> (r: MenuResponse)
        ensures
            r.open_layout == (interaction == ButtonInteraction::Clicked),
            r.look == match interaction {
                ButtonInteraction::Clicked => ButtonLook::Pressed,
                ButtonInteraction::Hovered => ButtonLook::Hovered,
                ButtonInteraction::Idle => ButtonLook::Normal,
            },
    {
        match interaction {
            ButtonInteraction::Clicked => MenuResponse { look: ButtonLook::Pressed, open_layout: true },
            ButtonInteraction::Hovered => MenuResponse { look: ButtonLook::Hovered, open_layout: false },
            ButtonInteraction::Idle => MenuResponse { look: ButtonLook::Normal, open_layout: false },
        }
    }
}

} // verus!
