use chezmage::cli::{choose_mode, Mode};

fn args(vals: &[&str]) -> Vec<String> {
    vals.iter().map(|s| String::from(*s)).collect()
}

fn shim_args(vals: &[&str]) -> Option<Vec<String>> {
    match choose_mode(args(vals)) {
        Mode::Shim(rest) => Some(rest),
        Mode::Wrapper => None,
    }
}

#[test]
fn without_the_flag_it_is_wrapper_mode() {
    assert_eq!(shim_args(&[]), None);
    assert_eq!(shim_args(&["apply", "--shims"]), None);
}

#[test]
fn the_flag_is_taken_out_wherever_it_stands() {
    assert_eq!(shim_args(&["--shim", "--version"]), Some(args(&["--version"])));
    assert_eq!(shim_args(&["-d", "--shim", "f"]), Some(args(&["-d", "f"])));
    assert_eq!(shim_args(&["--shim"]), Some(vec![]));
}

#[test]
fn only_the_first_flag_is_taken_out() {
    assert_eq!(
        shim_args(&["a", "--shim", "b", "--shim"]),
        Some(args(&["a", "b", "--shim"]))
    );
}
