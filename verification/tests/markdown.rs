use playoffsbot::markdown::{Code, Document, List, NumberedList, Paragraph, Table, H1, H2, H3, HR};

#[test]
fn test_h1() {
    let mut doc = Document::new();
    doc.add(H1::new("hello"));
    assert_eq!(doc.as_str(), "# hello\n");
}

#[test]
fn test_h2() {
    let mut doc = Document::new();
    doc.add(H2::new("hello"));
    assert_eq!(doc.as_str(), "## hello\n");
}

#[test]
fn test_h3() {
    let mut doc = Document::new();
    doc.add(H3::new("hello"));
    assert_eq!(doc.as_str(), "### hello\n");
}

#[test]
fn test_list() {
    let mut doc = Document::new();
    let mut list = List::new();
    list.extend(&["hello", "world"]);
    doc.add(list);
    assert_eq!(doc.as_str(), "* hello\n* world\n\n");
}

#[test]
fn test_numbered_list() {
    let mut doc = Document::new();
    let mut list = NumberedList::new();
    list.extend(&["hello", "world"]);
    doc.add(list);
    assert_eq!(doc.as_str(), "1. hello\n2. world\n\n");
}

#[test]
fn test_table_format() {
    let mut doc = Document::new();
    let mut table = Table::new(&["and", "T", "F"]);
    table.add(&["T", "T", "F"]);
    table.add(&["F", "F", "F"]);
    doc.add(table);
    assert_eq!(doc.as_str(), "and|T|F\n:---:|:---:|:---:\nT|T|F\nF|F|F\n\n");
}

#[test]
fn test_code() {
    let mut doc = Document::new();
    doc.add(Code::new("let x = 3;\nlet y = x**2;\n"));
    assert_eq!(doc.as_str(), "\n    let x = 3;\n    let y = x**2;\n\n");
}

#[test]
fn test_paragraph_and_rule() {
    let mut doc = Document::new();
    doc.add(Paragraph::new("odds today"));
    doc.add(HR);
    assert_eq!(doc.as_str(), "odds today\n\n---\n");
}

#[test]
fn test_empty_list_renders_blank_line() {
    let mut doc = Document::new();
    doc.add(List::new());
    assert_eq!(doc.as_str(), "\n");
}

#[test]
fn test_numbered_list_two_digit_numbers() {
    let mut doc = Document::new();
    let mut list = NumberedList::new();
    for _ in 0..11 {
        list.add("x");
    }
    doc.add(list);
    let expected = "1. x\n2. x\n3. x\n4. x\n5. x\n6. x\n7. x\n8. x\n9. x\n10. x\n11. x\n\n";
    assert_eq!(doc.as_str(), expected);
}

#[test]
fn test_code_trailing_carriage_return() {
    let mut doc = Document::new();
    doc.add(Code::new("a\r\nb"));
    assert_eq!(doc.as_str(), "\n    a\n    b\n\n");
}

#[test]
fn test_table_without_rows() {
    let mut doc = Document::new();
    doc.add(Table::new(&["A", "B"]));
    assert_eq!(doc.as_str(), "A|B\n:---:|:---:\n\n");
}
