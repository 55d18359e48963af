use rscc::node::{Node, Nodekind};

fn listing(node: &Node) -> String {
    node.text(&Vec::new()).iter().collect::<String>()
}

#[test]
fn node_display() {
    println!("{}", listing(&Node::default()));
    let node: Node = Node {
        kind: Nodekind::GlobalNd,
        stmts: Some(vec![
            Node::default(),
            Node {
                kind: Nodekind::AddNd,
                ..Default::default()
            },
        ]),
        ..Default::default()
    };
    println!("{}", listing(&node));
}
