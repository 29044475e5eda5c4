use wallctl::heic::{validate_input_image, HeicError, HeicFacts, LightDarkHeicSpec};

fn spec(light: &str, dark: &str, output: &str, force: bool) -> LightDarkHeicSpec {
    LightDarkHeicSpec {
        light: light.to_string(),
        dark: dark.to_string(),
        output: output.to_string(),
        force,
    }
}

fn facts(light: bool, dark: bool, output: bool) -> HeicFacts {
    HeicFacts {
        light_is_file: light,
        dark_is_file: dark,
        output_exists: output,
    }
}

#[test]
fn rejects_missing_inputs() {
    let spec = spec("/tmp/t/light.png", "/tmp/t/dark.png", "/tmp/t/wallpaper.heic", false);

    assert!(spec.validate(&facts(false, false, false)).is_err());
}

#[test]
fn rejects_existing_output_without_force() {
    let spec = spec("/tmp/t/light.png", "/tmp/t/dark.png", "/tmp/t/wallpaper.heic", false);

    assert!(matches!(
        spec.validate(&facts(true, true, true)),
        Err(HeicError::OutputExists { .. })
    ));
}

#[test]
fn accepts_supported_inputs_with_force() {
    let spec = spec("/tmp/t/light.jpg", "/tmp/t/dark.png", "/tmp/t/wallpaper.heic", true);

    spec.validate(&facts(true, true, true)).unwrap();
}

#[test]
fn heic_request_errors_in_order() {
    assert!(matches!(
        spec("/a/light.png", "/a/dark.png", "/a/out.heic", false).validate(&facts(false, true, false)),
        Err(HeicError::MissingInput { label, .. }) if label == "light"
    ));
    assert!(matches!(
        spec("/a/light.bmp", "/a/dark.png", "/a/out.heic", false).validate(&facts(true, true, false)),
        Err(HeicError::UnsupportedExtension { extension, .. }) if extension == "bmp"
    ));
    assert!(matches!(
        spec("/a/same.png", "/a//same.png", "/a/out.heic", false).validate(&facts(true, true, false)),
        Err(HeicError::SamePaths)
    ));
    assert!(matches!(
        spec("/a/l.png", "/a/d.png", "/a/out.HEIC", false).validate(&facts(true, true, false)),
        Err(HeicError::OutputNotHeic { .. })
    ));
    assert!(validate_input_image("dark", "/a/d.WEBP", true).is_ok());
}
