//! The user-editable configuration data the viewer carries: the named
//! key binding lists and the interface settings, with their built-in
//! defaults.

use vstd::prelude::*;

verus! {

/// The key strings one action is bound to.
pub struct BindingList(pub Vec<String>);

/// The views of a binding list's key strings.
pub open spec fn views_of(l: BindingList) -> Seq<Seq<char>> {
    l.0@.map(|i: int, s: String| s@)
}

/// One named binding list per action the viewer knows.
pub struct Keybindings {
    pub quit: BindingList,
    pub image_flip_horizontal: BindingList,
    pub image_flip_vertical: BindingList,
    pub image_next: BindingList,
    pub image_previous: BindingList,
    pub rotate_cw: BindingList,
    pub rotate_ccw: BindingList,
    pub zoom_in: BindingList,
    pub zoom_out: BindingList,
    pub zoom_reset: BindingList,
    pub fit_width: BindingList,
    pub fit_height: BindingList,
    pub fit_best: BindingList,
    pub fit_best_no_upscale: BindingList,
    pub fit_cover: BindingList,
    pub view_reset_pan: BindingList,
    pub view_pan_left: BindingList,
    pub view_pan_down: BindingList,
    pub view_pan_up: BindingList,
    pub view_pan_right: BindingList,
    pub view_pan_left_edge: BindingList,
    pub view_pan_right_edge: BindingList,
    pub view_pan_top_edge: BindingList,
    pub view_pan_bottom_edge: BindingList,
    pub grid_page_up: BindingList,
    pub grid_page_down: BindingList,
    pub toggle_status_bar: BindingList,
    pub toggle_animation: BindingList,
    pub toggle_slideshow: BindingList,
    pub toggle_grid: BindingList,
    pub mark_file: BindingList,
    pub unmark_all: BindingList,
    pub remove_image: BindingList,
    pub mark_all: BindingList,
    pub first_image: BindingList,
    pub last_image: BindingList,
    pub next_mark: BindingList,
    pub prev_mark: BindingList,
    pub handler_prefix: BindingList,
    pub filter_mode: BindingList,
    pub toggle_alpha: BindingList,
    pub next_frame: BindingList,
    pub prev_frame: BindingList,
}

impl Default for Keybindings {
    /// The built-in binding table.
    fn default() -> (r: Self)
        ensures
            views_of(r.quit) =~= seq!["q"@],
            views_of(r.image_flip_horizontal) =~= seq!["_"@],
            views_of(r.image_flip_vertical) =~= seq!["?"@],
            views_of(r.image_next) =~= seq!["n"@],
            views_of(r.image_previous) =~= seq!["p"@],
            views_of(r.rotate_cw) =~= seq![">"@],
            views_of(r.rotate_ccw) =~= seq!["<"@],
            views_of(r.zoom_in) =~= seq!["+"@],
            views_of(r.zoom_out) =~= seq!["-"@],
            views_of(r.zoom_reset) =~= seq!["="@],
            views_of(r.fit_width) =~= seq!["W"@],
            views_of(r.fit_height) =~= seq!["V"@],
            views_of(r.fit_best) =~= seq!["f"@],
            views_of(r.fit_best_no_upscale) =~= seq!["F"@],
            views_of(r.fit_cover) =~= seq!["C"@],
            views_of(r.view_reset_pan) =~= seq!["z"@],
            views_of(r.view_pan_left) =~= seq!["h"@, "Left"@],
            views_of(r.view_pan_down) =~= seq!["j"@, "Down"@],
            views_of(r.view_pan_up) =~= seq!["k"@, "Up"@],
            views_of(r.view_pan_right) =~= seq!["l"@, "Right"@],
            views_of(r.view_pan_left_edge) =~= seq!["H"@, "Shift+Left"@],
            views_of(r.view_pan_right_edge) =~= seq!["L"@, "Shift+Right"@],
            views_of(r.view_pan_top_edge) =~= seq!["K"@, "Shift+Up"@],
            views_of(r.view_pan_bottom_edge) =~= seq!["J"@, "Shift+Down"@],
            views_of(r.grid_page_up) =~= seq!["Ctrl+u"@],
            views_of(r.grid_page_down) =~= seq!["Ctrl+d"@],
            views_of(r.toggle_status_bar) =~= seq!["b"@],
            views_of(r.toggle_animation) =~= seq!["Ctrl+a"@],
            views_of(r.toggle_slideshow) =~= seq!["s"@],
            views_of(r.toggle_grid) =~= seq!["Enter"@],
            views_of(r.mark_file) =~= seq!["m"@],
            views_of(r.unmark_all) =~= seq!["u"@],
            views_of(r.remove_image) =~= seq!["D"@],
            views_of(r.mark_all) =~= seq!["M"@],
            views_of(r.first_image) =~= seq!["g"@],
            views_of(r.last_image) =~= seq!["G"@],
            views_of(r.next_mark) =~= seq!["N"@],
            views_of(r.prev_mark) =~= seq!["P"@],
            views_of(r.handler_prefix) =~= seq!["Ctrl+x"@],
            views_of(r.filter_mode) =~= seq!["/"@],
            views_of(r.toggle_alpha) =~= seq!["A"@],
            views_of(r.next_frame) =~= seq!["."@],
            views_of(r.prev_frame) =~= seq![","@],
    {
        Keybindings {
            quit: BindingList(vec!["q".to_owned()]),
            image_flip_horizontal: BindingList(vec!["_".to_owned()]),
            image_flip_vertical: BindingList(vec!["?".to_owned()]),
            image_next: BindingList(vec!["n".to_owned()]),
            image_previous: BindingList(vec!["p".to_owned()]),
            rotate_cw: BindingList(vec![">".to_owned()]),
            rotate_ccw: BindingList(vec!["<".to_owned()]),
            zoom_in: BindingList(vec!["+".to_owned()]),
            zoom_out: BindingList(vec!["-".to_owned()]),
            zoom_reset: BindingList(vec!["=".to_owned()]),
            fit_width: BindingList(vec!["W".to_owned()]),
            fit_height: BindingList(vec!["V".to_owned()]),
            fit_best: BindingList(vec!["f".to_owned()]),
            fit_best_no_upscale: BindingList(vec!["F".to_owned()]),
            fit_cover: BindingList(vec!["C".to_owned()]),
            view_reset_pan: BindingList(vec!["z".to_owned()]),
            view_pan_left: BindingList(vec!["h".to_owned(), "Left".to_owned()]),
            view_pan_down: BindingList(vec!["j".to_owned(), "Down".to_owned()]),
            view_pan_up: BindingList(vec!["k".to_owned(), "Up".to_owned()]),
            view_pan_right: BindingList(vec!["l".to_owned(), "Right".to_owned()]),
            view_pan_left_edge: BindingList(vec!["H".to_owned(), "Shift+Left".to_owned()]),
            view_pan_right_edge: BindingList(vec!["L".to_owned(), "Shift+Right".to_owned()]),
            view_pan_top_edge: BindingList(vec!["K".to_owned(), "Shift+Up".to_owned()]),
            view_pan_bottom_edge: BindingList(vec!["J".to_owned(), "Shift+Down".to_owned()]),
            grid_page_up: BindingList(vec!["Ctrl+u".to_owned()]),
            grid_page_down: BindingList(vec!["Ctrl+d".to_owned()]),
            toggle_status_bar: BindingList(vec!["b".to_owned()]),
            toggle_animation: BindingList(vec!["Ctrl+a".to_owned()]),
            toggle_slideshow: BindingList(vec!["s".to_owned()]),
            toggle_grid: BindingList(vec!["Enter".to_owned()]),
            mark_file: BindingList(vec!["m".to_owned()]),
            unmark_all: BindingList(vec!["u".to_owned()]),
            remove_image: BindingList(vec!["D".to_owned()]),
            mark_all: BindingList(vec!["M".to_owned()]),
            first_image: BindingList(vec!["g".to_owned()]),
            last_image: BindingList(vec!["G".to_owned()]),
            next_mark: BindingList(vec!["N".to_owned()]),
            prev_mark: BindingList(vec!["P".to_owned()]),
            handler_prefix: BindingList(vec!["Ctrl+x".to_owned()]),
            filter_mode: BindingList(vec!["/".to_owned()]),
            toggle_alpha: BindingList(vec!["A".to_owned()]),
            next_frame: BindingList(vec![".".to_owned()]),
            prev_frame: BindingList(vec![",".to_owned()]),
        }
    }
}

/// Interface settings: colors, sizes, and the status line formats.
pub struct Ui {
    pub bg_color: String,
    pub status_bar_bg: String,
    pub status_bar_fg: String,
    pub font_family: String,
    pub font_size: u8,
    pub thumbnail_border_color: String,
    pub selected_border_width: u32,
    pub selected_border_padding: u32,
    pub mark_indicator_size: u32,
    pub checkerboard_size: u32,
    pub checkerboard_color_1: String,
    pub checkerboard_color_2: String,
    pub mark_color: String,
    pub loading_color: String,
    pub error_color: String,
    pub status_format_left: String,
    pub status_format_right: String,
}

impl Default for Ui {
    /// The built-in interface settings.
    fn default() -> (r: Self)
        ensures
            r.bg_color@ == "#000000"@,
            r.status_bar_bg@ == "#303030"@,
            r.status_bar_fg@ == "#FFFFFF"@,
            r.font_family@ == "monospace"@,
            r.font_size == 13,
            r.thumbnail_border_color@ == "#FFFFFF"@,
            r.selected_border_width == 4,
            r.selected_border_padding == 1,
            r.mark_indicator_size == 12,
            r.checkerboard_size == 16,
            r.checkerboard_color_1@ == "#CCCCCC"@,
            r.checkerboard_color_2@ == "#999999"@,
            r.mark_color@ == "#FF0000"@,
            r.loading_color@ == "#3c3c3c"@,
            r.error_color@ == "#FF0000"@,
            r.status_format_left@ == "%p"@,
            r.status_format_right@ == "%P %s %f %m %z %i"@,
    {
        Ui {
            bg_color: "#000000".to_owned(),
            status_bar_bg: "#303030".to_owned(),
            status_bar_fg: "#FFFFFF".to_owned(),
            font_family: "monospace".to_owned(),
            font_size: 13,
            thumbnail_border_color: "#FFFFFF".to_owned(),
            selected_border_width: 4,
            selected_border_padding: 1,
            mark_indicator_size: 12,
            checkerboard_size: 16,
            checkerboard_color_1: "#CCCCCC".to_owned(),
            checkerboard_color_2: "#999999".to_owned(),
            mark_color: "#FF0000".to_owned(),
            loading_color: "#3c3c3c".to_owned(),
            error_color: "#FF0000".to_owned(),
            status_format_left: "%p".to_owned(),
            status_format_right: "%P %s %f %m %z %i".to_owned(),
        }
    }
}

} // verus!
