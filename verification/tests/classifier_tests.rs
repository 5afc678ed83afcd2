use clipkeep::classifier::detect_category;

#[test]
fn test_url_detection() {
    assert_eq!(detect_category("https://example.com"), "url");
    assert_eq!(detect_category("Check out http://google.com for info"), "url");
    assert_eq!(detect_category("www.github.com"), "url");
}

#[test]
fn test_email_detection() {
    assert_eq!(detect_category("user@example.com"), "email");
    assert_eq!(detect_category("Contact: admin+test@company.co.uk"), "email");
}

#[test]
fn test_error_detection() {
    assert_eq!(detect_category("Error: Connection timeout"), "error");
    assert_eq!(detect_category("Fatal exception occurred\nTraceback: ..."), "error");
    assert_eq!(detect_category("The word error in a URL: https://error.com"), "url");
}

#[test]
fn test_command_detection() {
    assert_eq!(detect_category("$ ls -la"), "command");
    assert_eq!(detect_category("sudo apt install git"), "command");
    assert_eq!(detect_category("git commit -m 'test'"), "command");
}

#[test]
fn test_code_detection() {
    assert_eq!(detect_category("function test() {\n  return true;\n}"), "code");
    assert_eq!(detect_category("const x = 10;"), "code");
    assert_eq!(detect_category("def calculate(a, b):"), "code");
}

#[test]
fn test_path_detection() {
    assert_eq!(detect_category("/Users/admin/file.txt"), "path");
    assert_eq!(detect_category("~/Documents/notes"), "path");
    assert_eq!(detect_category("C:\\Windows\\System32"), "path");
}

#[test]
fn test_ip_detection() {
    assert_eq!(detect_category("192.168.1.1"), "ip");
    assert_eq!(detect_category("Connect to 10.0.0.5 for access"), "ip");
}

#[test]
fn test_misc_fallback() {
    assert_eq!(detect_category("Just some random text"), "misc");
    assert_eq!(detect_category("Meeting notes from today"), "misc");
}

#[test]
fn test_error_ratio_threshold() {
    // 1 error line out of 4 is under the 30 percent bar
    assert_eq!(detect_category("alpha beta\ngamma delta\nepsilon zeta\nerror here"), "misc");
    // 2 error lines out of 4 are over it
    assert_eq!(detect_category("panic: oops\ngamma delta\nepsilon zeta\nerror here"), "error");
}

#[test]
fn test_case_insensitive_error_keyword() {
    assert_eq!(detect_category("FATAL problem"), "error");
}

#[test]
fn test_drive_prefix_needs_a_letter() {
    assert_eq!(detect_category("C:\\Users"), "path");
    // a digit or punctuation before the colon-backslash is no drive
    assert_eq!(detect_category("1:\\x"), "misc");
    assert_eq!(detect_category(";:\\x"), "misc");
}

#[test]
fn test_ip_word_boundaries() {
    // digits glued to a word character are no dotted quad
    assert_eq!(detect_category("version1234.1.1.1"), "misc");
    assert_eq!(detect_category("999.999.999.999"), "ip");
}
