//! Which screens of the surrounding application are open.
use vstd::prelude::*;

use crate::activities::ActivityUIState;

verus! {

/// Which screens are open.
#[derive(Debug)]
pub struct UIStates {
    pub showing_options_menu: bool,
    pub showing_about_page: bool,
    pub showing_mood_tag_selector: bool,
    pub showing_statistics_screen: bool,
    pub showing_graph_controls: bool,
    pub activity_ui_state: ActivityUIState,
}

impl Default for UIStates {
    /// Every screen starts closed.
    fn default() -> (r: Self)
        ensures
            !r.showing_options_menu,
            !r.showing_about_page,
            !r.showing_mood_tag_selector,
            !r.showing_statistics_screen,
            !r.showing_graph_controls,
    {
        UIStates {
            showing_options_menu: false,
            showing_about_page: false,
            showing_mood_tag_selector: false,
            showing_statistics_screen: false,
            showing_graph_controls: false,
            activity_ui_state: ActivityUIState::new(),
        }
    }
}

} // verus!
