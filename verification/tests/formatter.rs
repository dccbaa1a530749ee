use zenlang::formatter::format_source;

#[test]
fn test_basic_formatting() {
    let src = "fn main() -> int {\n    // it works\n    42\n}\n\nfn testai()->void{\nlet x=42;\nlet y=x+1;\n/* block */\ny\n}\n";
    let result = format_source(src, 4).unwrap();
    println!("=== FORMATTED ===");
    println!("{result}");
    println!("=== END ===");

    assert!(result.contains("fn main() -> int {"));
    assert!(result.contains("    // it works"));
    assert!(result.contains("    42"));
    assert!(result.contains("fn testai() -> void {"));
    assert!(result.contains("    let x = 42;"));
    assert!(result.contains("    let y = x + 1;"));
    assert!(result.contains("    /* block */"));
    assert!(result.contains("    y"));
}

#[test]
fn test_blank_lines_between_fns() {
    let src = "fn main() -> int {\n    //\"test\"\n    42\n}\n\nfn testai() -> void {\n    return ;\n}\n\n\nfn an_error() -> int {\n    \"test\"\n}\n";
    let result = format_source(src, 4).unwrap();
    println!("=== FORMATTED ===");
    println!("{result}");
    println!("=== END ===");
    for (i, l) in result.lines().enumerate() {
        println!("{i:>3}: |{l}|");
    }
    // Exactly 1 blank line between each function
    assert_eq!(result.lines().nth(3), Some("}"));
    assert_eq!(result.lines().nth(4), Some(""));
    assert_eq!(result.lines().nth(5), Some("fn testai() -> void {"));
}

#[test]
fn formatter_test_if_else() {
    let src = "fn main() -> int {\nif true{42}else{0}\n}\n";
    let result = format_source(src, 4).unwrap();
    println!("=== IF ELSE ===");
    println!("{result}");
    println!("=== END ===");

    assert!(result.contains("if true {"));
    assert!(result.contains("} else {"));
    assert!(result.contains("    42"));
    assert!(result.contains("    0"));
}

#[test]
fn format_reports_lex_errors() {
    let result = format_source("fn f() { \"open", 4);
    assert!(result.is_err());
}

#[test]
fn format_uses_tab_size() {
    let result = format_source("fn f(){1}", 2).unwrap();
    assert_eq!(result, "fn f() {\n  1\n}\n");
}

#[test]
fn format_is_stable_on_formatted_text() {
    let once = format_source("fn main()->int{let x=1;x}", 4).unwrap();
    let twice = format_source(&once, 4).unwrap();
    assert_eq!(once, twice);
}

#[test]
fn empty_bodies_keep_top_level_at_column_zero() {
    let result = format_source("fn a() {}\nfn b() {}\n", 4).unwrap();
    let lines: Vec<&str> = result.lines().collect();
    assert_eq!(lines[0], "fn a() {");
    assert_eq!(lines[1], "}");
    assert_eq!(lines[2], "");
    assert_eq!(lines[3], "fn b() {");
}
