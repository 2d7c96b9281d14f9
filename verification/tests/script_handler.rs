use rsiv::script_handler::{
    extension_component, file_name_component, file_stem_component, format_command_arg,
    parent_component,
};

#[test]
fn path_components_split_at_slash_and_dot() {
    assert_eq!(parent_component("/home/me/cat.png"), "/home/me");
    assert_eq!(parent_component("cat.png"), "");
    assert_eq!(parent_component("/cat.png"), "/");
    assert_eq!(file_name_component("/home/me/cat.png"), "cat.png");
    assert_eq!(file_stem_component("/home/me/cat.png"), "cat");
    assert_eq!(extension_component("/home/me/cat.png"), "png");
    assert_eq!(extension_component("/home/me/noext"), "");
    assert_eq!(file_stem_component("/home/me/.hidden"), ".hidden");
}

#[test]
fn command_tokens_expand() {
    let path = "/pics/trip/beach.jpg";
    assert_eq!(format_command_arg("%f", path), path);
    assert_eq!(format_command_arg("convert %f %d/%n_small.%e", path),
        "convert /pics/trip/beach.jpg /pics/trip/beach_small.jpg");
    assert_eq!(format_command_arg("%F", path), "beach.jpg");
    assert_eq!(format_command_arg("100%%", path), "100%");
    assert_eq!(format_command_arg("50%x", path), "50%x");
    assert_eq!(format_command_arg("plain", path), "plain");
    assert_eq!(format_command_arg("%", path), "%");
}
