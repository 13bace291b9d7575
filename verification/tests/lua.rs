use ferrowl::lua::State;

#[test]
fn ut_state_ok_has_no_error() {
    let s = State::ok();
    assert!(s.is_ok());
    assert!(s.error().is_none());
    assert!(s.time_since() <= std::time::Instant::now());
}

#[test]
fn ut_state_err_keeps_the_error() {
    let s = State::err(mlua::Error::RuntimeError("boom".to_string()));
    assert!(!s.is_ok());
    match s.error() {
        Some(mlua::Error::RuntimeError(m)) => assert_eq!(m, "boom"),
        other => panic!("expected the runtime error back, got {other:?}"),
    }
}


#[test]
fn st_state_is_ok_iff_no_error() {
    let ok = State::ok();
    assert_eq!(ok.is_ok(), ok.error().is_none());
    let failed = State::err(mlua::Error::RuntimeError("x".to_string()));
    assert_eq!(failed.is_ok(), failed.error().is_none());
}
