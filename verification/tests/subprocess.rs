// Progress-line detection.

use bx::subprocess::is_progress_line;

#[test]
fn progress_line_ninja_percentage() {
    assert!(is_progress_line("[ 42%] Building CXX object foo.cpp.o"));
    assert!(is_progress_line("[100%] Linking CXX executable bx"));
    assert!(is_progress_line("[  3%] Building C object bar.c.o"));
}

#[test]
fn progress_line_cmake_dash() {
    assert!(is_progress_line("-- Configuring done"));
    assert!(is_progress_line("-- Build files have been written to: /build"));
    assert!(is_progress_line("-- Installing: /usr/local/bin/bx"));
}

#[test]
fn progress_line_rejects_errors() {
    assert!(!is_progress_line("src/foo.cpp:10:5: error: bad"));
    assert!(!is_progress_line("FAILED: CMakeFiles/bx.dir/src/main.cpp.o"));
    assert!(!is_progress_line("ninja: build stopped: subcommand failed."));
    assert!(!is_progress_line(""));
}
