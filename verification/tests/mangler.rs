use ar_archive_writer::get_arm64ec_demangled_function_name;
use ar_archive_writer::get_arm64ec_mangled_function_name;

#[test]
fn mangle_c_name_gets_hash_prefix() {
    assert_eq!(
        get_arm64ec_mangled_function_name("func"),
        Some(String::from("#func"))
    );
}

#[test]
fn mangle_already_prefixed_fails() {
    assert_eq!(get_arm64ec_mangled_function_name("#func"), None);
}

#[test]
fn mangle_cpp_name_splices_after_double_at() {
    assert_eq!(
        get_arm64ec_mangled_function_name("?foo@@YAXXZ"),
        Some(String::from("?foo@@$$hYAXXZ"))
    );
}

#[test]
fn mangle_cpp_name_already_mangled_fails() {
    assert_eq!(get_arm64ec_mangled_function_name("?foo@@$$hYAXXZ"), None);
}

#[test]
fn mangle_cpp_splice_skips_triple_at() {
    // The first @@ starts an @@@ and is skipped; the next @@ that does not
    // is the splice point.
    assert_eq!(
        get_arm64ec_mangled_function_name("?a@@@b@@c"),
        Some(String::from("?a@@@$$hb@@c"))
    );
    assert_eq!(
        get_arm64ec_mangled_function_name("?a@@@b"),
        Some(String::from("?a@@@$$hb"))
    );
}

#[test]
fn mangle_cpp_name_without_at_appends() {
    assert_eq!(
        get_arm64ec_mangled_function_name("?x"),
        Some(String::from("?x$$h"))
    );
}

#[test]
fn mangle_cpp_name_single_at_splices_after_it() {
    assert_eq!(
        get_arm64ec_mangled_function_name("?a@b"),
        Some(String::from("?a@$$hb"))
    );
}

#[test]
fn demangle_strips_hash_prefix() {
    assert_eq!(
        get_arm64ec_demangled_function_name("#func"),
        Some(String::from("func"))
    );
}

#[test]
fn demangle_removes_infix() {
    assert_eq!(
        get_arm64ec_demangled_function_name("?foo@@$$hYAXXZ"),
        Some(String::from("?foo@@YAXXZ"))
    );
}

#[test]
fn demangle_rejects_unmangled_name() {
    assert_eq!(get_arm64ec_demangled_function_name("plain"), None);
}

#[test]
fn demangle_rejects_trailing_infix() {
    assert_eq!(get_arm64ec_demangled_function_name("?foo$$h"), None);
}

#[test]
fn mangle_then_demangle_returns_original() {
    for name in ["func", "?foo@@YAXXZ", "?a@b", "a#b"] {
        let mangled = get_arm64ec_mangled_function_name(name).unwrap();
        assert_eq!(
            get_arm64ec_demangled_function_name(&mangled),
            Some(String::from(name))
        );
    }
}
