use incgc::locked::LockedCell;
use incgc::{Arena, Gc, Mutation};

type Node = (i32, LockedCell<Option<Gc>>);

fn add_node(
    graph: &mut Vec<Gc>,
    value: i32,
    parent_idx: Option<usize>,
    mt: &mut Mutation<Node>,
) -> usize {
    let parent = match parent_idx {
        Some(idx) => Some(graph[idx]),
        None => None,
    };
    let node = Gc::new((value, LockedCell::new(parent)), mt);
    graph.push(node);
    graph.len() - 1
}

#[test]
fn basic() {
    let mut a = Arena::<Vec<Gc>, Node>::new(Vec::new());

    let mut graph = std::mem::take(a.view_mut());
    add_node(&mut graph, 0, None, &mut a.mutation);
    add_node(&mut graph, 1, Some(0), &mut a.mutation);
    add_node(&mut graph, 2, Some(0), &mut a.mutation);
    *a.view_mut() = graph;

    assert_eq!(a.allocations(), 3);
    a.complete_collection();
    assert_eq!(a.allocations(), 3);

    let _ = Gc::new((100, LockedCell::new(None)), &mut a.mutation);

    assert_eq!(a.allocations(), 4);
    a.complete_collection();
    assert_eq!(a.allocations(), 3);
}
