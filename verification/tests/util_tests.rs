use cubes::config::{is_bool, is_num, window_state, WindowState};
use cubes::hresult::{io_error, win32_to_hresult, IoErrorKind};
use cubes::keys::{read_key, set_key};

#[test]
fn win32_to_hresult_values() {
    // Success passes through.
    assert_eq!(win32_to_hresult(0), 0);
    // ERROR_FILE_NOT_FOUND folds into facility 7 with the failure bit.
    assert_eq!(win32_to_hresult(2), -2147024894);
    // ERROR_ACCESS_DENIED.
    assert_eq!(win32_to_hresult(5), -2147024891);
    // A value with the high bit set is already an HRESULT.
    assert_eq!(win32_to_hresult(0x8007_0005), -2147024891);
    assert_eq!(win32_to_hresult(0x8000_0000), -2147483648);
    // Only the low 16 bits of a plain code survive the fold.
    assert_eq!(win32_to_hresult(0x7fff_0002), -2147024894);
}

#[test]
fn io_error_values() {
    assert_eq!(io_error(IoErrorKind::NotFound), -2147024894);
    assert_eq!(io_error(IoErrorKind::PermissionDenied), -2147024891);
    assert_eq!(io_error(IoErrorKind::ConnectionRefused), -2147023671);
    assert_eq!(io_error(IoErrorKind::ConnectionReset), -2147012865);
    assert_eq!(io_error(IoErrorKind::ConnectionAborted), -2147023660);
    assert_eq!(io_error(IoErrorKind::NotConnected), -2147022646);
    assert_eq!(io_error(IoErrorKind::AddrInUse), -2147019839);
    assert_eq!(io_error(IoErrorKind::AddrNotAvailable), -2147019860);
    assert_eq!(io_error(IoErrorKind::BrokenPipe), -2147024787);
    assert_eq!(io_error(IoErrorKind::AlreadyExists), -2147024713);
    assert_eq!(io_error(IoErrorKind::WouldBlock), -2147014861);
    assert_eq!(io_error(IoErrorKind::InvalidInput), -2147024809);
    assert_eq!(io_error(IoErrorKind::InvalidData), -2147024883);
    assert_eq!(io_error(IoErrorKind::TimedOut), -2147024880);
    assert_eq!(io_error(IoErrorKind::WriteZero), -2147024867);
    assert_eq!(io_error(IoErrorKind::Interrupted), -2146233063);
    assert_eq!(io_error(IoErrorKind::Unsupported), -2147467263);
    assert_eq!(io_error(IoErrorKind::UnexpectedEof), -1072896679);
    assert_eq!(io_error(IoErrorKind::OutOfMemory), -2147024882);
    assert_eq!(io_error(IoErrorKind::Other), -1);
}

#[test]
fn key_bitmap_set_and_read() {
    let keys = [0u16; 16];
    // Mark the W key (0x57) down and read it back.
    let keys = set_key(keys, true, 0x57);
    assert!(read_key(0x57, keys));
    // A different key in the same word stays up.
    assert!(!read_key(0x50, keys));
    // A key in another word stays up.
    assert!(!read_key(0x1B, keys));
    // Releasing the key clears only its bit.
    let keys = set_key(keys, true, 0x1B);
    let keys = set_key(keys, false, 0x57);
    assert!(!read_key(0x57, keys));
    assert!(read_key(0x1B, keys));
}

#[test]
fn key_codes_past_the_bitmap_change_nothing() {
    let keys = [0xFFFFu16; 16];
    assert_eq!(set_key(keys, false, 256), keys);
    assert_eq!(set_key(keys, true, 1000), keys);
}

#[test]
fn is_bool_accepts_exactly_true_and_false() {
    assert_eq!(is_bool(String::from("true")), Ok(()));
    assert_eq!(is_bool(String::from("false")), Ok(()));
    assert_eq!(
        is_bool(String::from("True")),
        Err(String::from("Must be boolean"))
    );
    assert_eq!(
        is_bool(String::from("")),
        Err(String::from("Must be boolean"))
    );
    assert_eq!(
        is_bool(String::from("1")),
        Err(String::from("Must be boolean"))
    );
}

#[test]
fn is_num_accepts_what_u16_parsing_accepts() {
    for ok in ["0", "800", "65535", "+600", "0000065535", "+0"] {
        assert_eq!(is_num(String::from(ok)), Ok(()), "{}", ok);
        assert!(ok.parse::<u16>().is_ok(), "{}", ok);
    }
    for bad in ["", "+", "65536", "-1", "12a", " 12", "1 ", "0x10"] {
        assert_eq!(
            is_num(String::from(bad)),
            Err(String::from("Must be integer")),
            "{}",
            bad
        );
        assert!(bad.parse::<u16>().is_err(), "{}", bad);
    }
}

#[test]
fn window_state_prefers_fullscreen_then_maximized() {
    assert_eq!(
        window_state(true, true, Some(1), Some(2)),
        WindowState::Fullscreen
    );
    assert_eq!(window_state(false, true, None, None), WindowState::Maximized);
    assert_eq!(
        window_state(false, false, Some(1024), Some(768)),
        WindowState::Windowed(1024, 768)
    );
    assert_eq!(
        window_state(false, false, Some(1024), None),
        WindowState::Windowed(800, 600)
    );
    assert_eq!(
        window_state(false, false, None, None),
        WindowState::Windowed(800, 600)
    );
}
