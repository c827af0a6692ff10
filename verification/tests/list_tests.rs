use json_main::list::fire::FireList;

fn values(list: &FireList<String>) -> Vec<String> {
    list.values().into_iter().cloned().collect()
}

fn backwards(list: &FireList<String>) -> Vec<String> {
    let mut out = Vec::new();
    let size = list.size();
    if size == 0 {
        return out;
    }
    let mut node = list.get(size - 1);
    while let Some(n) = node {
        out.push(n.get().clone());
        node = match n.prev() {
            Some(place) => list.node(*place),
            None => None,
        };
    }
    out
}

#[test]
fn link_unlink_test() {
    let mut fl = FireList::<String>::new();

    println!("Linking Test!");
    for i in 0..10 {
        fl.link(format!("{}", i));
    }
    println!("{:?}", values(&fl));
    assert_eq!(fl.size(), 10);
    assert_eq!(values(&fl), vec!["0", "1", "2", "3", "4", "5", "6", "7", "8", "9"]);

    println!("Unlinking Test!");
    let expected = vec![
        vec!["0", "1", "2", "4", "5", "6", "7", "8", "9"],
        vec!["0", "1", "2", "4", "6", "7", "8", "9"],
        vec!["0", "1", "2", "4", "6", "8", "9"],
        vec!["1", "2", "4", "6", "8", "9"],
        vec!["1", "2", "4", "6", "8"],
    ];
    let mut step = 0;
    for e in vec![3, 4, 5, 0, usize::MAX] {
        let index = if e == usize::MAX { fl.size() - 1 } else { e };
        fl.unlink(index);
        println!("{:?}", values(&fl));
        assert_eq!(values(&fl), expected[step]);
        let mut reversed = backwards(&fl);
        reversed.reverse();
        assert_eq!(reversed, expected[step]);
        step += 1;
    }
    assert_eq!(fl.size(), 5);
    fl.unlink(5);
    assert_eq!(fl.size(), 5);
}

#[test]
fn looping_test() {
    let mut fl = FireList::<String>::new();

    println!("Linking Test!");
    for i in 0..10 {
        fl.link(format!("{}", i));
    }

    let f = fl.get(2);
    println!("{:?}", f.unwrap().get());
    assert_eq!(f.unwrap().get(), "2");
    assert!(fl.get(10).is_none());
    let third = fl.get(2).unwrap();
    let after = fl.node(third.next().unwrap()).unwrap();
    assert_eq!(after.get(), "3");
    let before = fl.node(third.prev().unwrap()).unwrap();
    assert_eq!(before.get(), "1");
    assert!(fl.get(0).unwrap().prev().is_none());
    assert!(fl.get(9).unwrap().next().is_none());
}

#[test]
fn a_list_can_be_emptied_and_filled_again() {
    let mut fl = FireList::<String>::new();
    fl.link(String::from("a")).link(String::from("b"));
    fl.unlink(1).unlink(0);
    assert_eq!(fl.size(), 0);
    assert!(fl.get(0).is_none());
    fl.link(String::from("c"));
    assert_eq!(values(&fl), vec!["c"]);
    assert_eq!(backwards(&fl), vec!["c"]);
}
