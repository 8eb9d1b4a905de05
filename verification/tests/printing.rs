use zin_lib::printing::{container_text, pieces, Contents, Piece, Printed};

#[test]
fn item_pieces() {
    let items = vec![
        Printed::Text("a".to_string()),
        Printed::Bytes(b"hi".to_vec()),
        Printed::Bytes(vec![0xff]),
        Printed::Plain("3".to_string()),
        Printed::Object(9),
        Printed::Object(4),
        Printed::Object(9),
    ];
    assert_eq!(
        pieces(&items, 4),
        vec![
            Piece::Text("a".to_string()),
            Piece::Text("hi".to_string()),
            Piece::Text(String::new()),
            Piece::Text("3".to_string()),
            Piece::Describe(9),
            Piece::Text(String::new()),
            Piece::Text(String::new()),
        ]
    );
}

#[test]
fn container_texts() {
    assert_eq!(container_text(&Contents::String("abc".to_string())), "abc");
    assert_eq!(
        container_text(&Contents::Vector(vec!["1".to_string(), "".to_string(), "x".to_string()])),
        "[1, , x]"
    );
    assert_eq!(
        container_text(&Contents::Entries(vec![("k".to_string(), "v".to_string())])),
        "[k: v]"
    );
    assert_eq!(container_text(&Contents::Vector(vec![])), "[]");
    assert_eq!(container_text(&Contents::Other), "<file>");
}
