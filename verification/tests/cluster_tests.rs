use raft::cluster::{c_id, client_links, host_list, s_id, server_links, server_names};

#[test]
fn names_are_prefix_and_number() {
    assert_eq!(s_id(3), "server3");
    assert_eq!(s_id(12), "server12");
    assert_eq!(c_id(0), "client0");
    assert_eq!(c_id(-7), "client-7");
}

#[test]
fn server_names_list_the_cluster() {
    assert_eq!(server_names(3), vec!["server0", "server1", "server2"]);
    assert!(server_names(0).is_empty());
    assert!(server_names(-2).is_empty());
}

#[test]
fn links_reach_every_other_node() {
    assert_eq!(server_links(1, 3, 2), vec!["server0", "server2", "client0", "client1"]);
    assert_eq!(client_links(2), vec!["server0", "server1"]);
}

#[test]
fn names_are_unique() {
    let names: Vec<String> = (-12..120).map(s_id).chain((-12..120).map(c_id)).collect();
    for i in 0..names.len() {
        for j in 0..i {
            assert_ne!(names[i], names[j]);
        }
    }
}

#[test]
fn host_list_skips_comments_and_newlines() {
    let lines = vec![
        String::from("# servers\n"),
        String::from("10.0.0.1:5000\n"),
        String::from("10.0.0.2:5000"),
        String::from("\n"),
        String::from(" #not a comment\n"),
    ];
    assert_eq!(host_list(lines), vec!["10.0.0.1:5000", "10.0.0.2:5000", "", " #not a comment"]);
    assert!(host_list(vec![]).is_empty());
}
