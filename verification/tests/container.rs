use mgdocker::container::{parent_dir, Container};
use mgdocker::error::Failure;

const LABEL: &str = "com.docker.compose.project.config_files=/srv/app/docker-compose.yml";

fn container_row(id: &str, names: &str, labels: &str) -> Container {
    Container {
        id: id.to_string(),
        image: "image".to_string(),
        command: "command".to_string(),
        created_at: "created".to_string(),
        running_for: "running".to_string(),
        ports: "ports".to_string(),
        status: "status".to_string(),
        size: "size".to_string(),
        names: names.to_string(),
        labels: labels.to_string(),
        mounts: "mounts".to_string(),
        networks: "networks".to_string(),
        state: "state".to_string(),
        local_volumes: "0".to_string(),
    }
}

fn listed_ids(listing: &[Container]) -> Vec<String> {
    listing.iter().map(|c| c.id.clone()).collect()
}

#[test]
fn list_command_has_the_exact_arguments() {
    let command = Container::list_command();
    assert_eq!(command.program, "docker");
    assert_eq!(command.args, vec!["ps", "--all", "--no-trunc", "--format", "'{{json .}}'"]);
    assert_eq!(command.dir, None);
}

#[test]
fn inspect_command_has_the_exact_arguments() {
    let command = Container::inspect_command("web-1");
    assert_eq!(command.program, "docker");
    assert_eq!(command.args, vec![
        "inspect",
        "web-1",
        "--format",
        "'{{ index .Config.Labels \"com.docker.compose.project.config_files\" }}'",
    ]);
    assert_eq!(command.dir, None);
}

#[test]
fn rows_are_the_lines_without_their_quotes() {
    let output = "'{\"ID\":\"1\"}'\n'{\"ID\":\"2\"}'\n";
    assert_eq!(Container::rows(output), vec!["{\"ID\":\"1\"}", "{\"ID\":\"2\"}"]);
}

#[test]
fn rows_leave_out_empty_lines() {
    assert_eq!(Container::rows("\n\n'a'\n\n'b'"), vec!["a", "b"]);
    assert_eq!(Container::rows(""), Vec::<String>::new());
    assert_eq!(Container::rows("\n"), Vec::<String>::new());
}

#[test]
fn rows_keep_a_line_of_quotes_as_an_empty_row() {
    assert_eq!(Container::rows("''\nx"), vec!["", "x"]);
}

#[test]
fn rows_keep_what_stands_between_the_quotes() {
    assert_eq!(Container::rows("''it's''\n 'a' "), vec!["it's", " 'a' "]);
}

#[test]
fn rows_agree_with_the_chain_of_std_calls() {
    for output in ["", "'a'\n'b'\n", "\n''\n'x", "a\n\n\nb'", "'\u{e9}'\n'\u{4e2d}\u{6587}'"] {
        let expected: Vec<String> = output
            .split("\n")
            .filter(|val| !val.is_empty())
            .map(|val| val.trim_matches('\'').to_string())
            .collect();
        assert_eq!(Container::rows(output), expected);
    }
}

#[test]
fn label_is_found_anywhere_in_the_labels() {
    assert!(container_row("1", "a", LABEL).has_compose_label());
    assert!(container_row("1", "a", &format!("x=y,{},z=w", LABEL)).has_compose_label());
    assert!(!container_row("1", "a", "").has_compose_label());
    assert!(!container_row("1", "a", "com.docker.compose.project=app").has_compose_label());
    assert!(!container_row("1", "a", "com.docker.compose.project.config_file=/x").has_compose_label());
}

#[test]
fn listing_leaves_out_rows_without_the_label() {
    let rows = vec![
        Some(container_row("1", "a", LABEL)),
        Some(container_row("2", "b", "other=label")),
        Some(container_row("3", "c", LABEL)),
    ];
    assert_eq!(listed_ids(&Container::get_all(rows)), vec!["1", "3"]);
}

#[test]
fn listing_is_sorted_by_name() {
    let rows = vec![
        Some(container_row("1", "web", LABEL)),
        Some(container_row("2", "db", LABEL)),
        Some(container_row("3", "cache", LABEL)),
        Some(container_row("4", "Worker", LABEL)),
    ];
    let listing = Container::get_all(rows);
    let names: Vec<String> = listing.iter().map(|c| c.names.clone()).collect();
    assert_eq!(names, vec!["Worker", "cache", "db", "web"]);
    assert_eq!(listed_ids(&listing), vec!["4", "3", "2", "1"]);
}

#[test]
fn listing_survives_a_malformed_row() {
    let rows = vec![
        Some(container_row("1", "c", LABEL)),
        None,
        Some(container_row("2", "a", LABEL)),
        Some(container_row("3", "b", LABEL)),
    ];
    let listing = Container::get_all(rows);
    assert_eq!(listing.len(), 3);
    assert_eq!(listed_ids(&listing), vec!["2", "3", "1"]);
}

#[test]
fn listing_keeps_equal_names_in_the_order_of_their_rows() {
    let rows = vec![
        Some(container_row("1", "same", LABEL)),
        Some(container_row("2", "first", LABEL)),
        Some(container_row("3", "same", LABEL)),
        Some(container_row("4", "same", LABEL)),
    ];
    assert_eq!(listed_ids(&Container::get_all(rows)), vec!["2", "1", "3", "4"]);
}

#[test]
fn listing_of_nothing_is_empty() {
    assert_eq!(Container::get_all(Vec::new()).len(), 0);
    assert_eq!(Container::get_all(vec![None, None]).len(), 0);
}

#[test]
fn listing_keeps_all_fields_of_a_row() {
    let listing = Container::get_all(vec![Some(container_row("7", "n", LABEL))]);
    let row = &listing[0];
    assert_eq!(row.id, "7");
    assert_eq!(row.image, "image");
    assert_eq!(row.command, "command");
    assert_eq!(row.created_at, "created");
    assert_eq!(row.running_for, "running");
    assert_eq!(row.ports, "ports");
    assert_eq!(row.status, "status");
    assert_eq!(row.size, "size");
    assert_eq!(row.names, "n");
    assert_eq!(row.labels, LABEL);
    assert_eq!(row.mounts, "mounts");
    assert_eq!(row.networks, "networks");
    assert_eq!(row.state, "state");
    assert_eq!(row.local_volumes, "0");
}

#[test]
fn listing_sorts_as_std_sorts() {
    let names = ["m", "b", "zz", "a", "b", "B", "\u{e9}", "aa", "", "z", "a"];
    let rows: Vec<Option<Container>> = names
        .iter()
        .enumerate()
        .map(|(i, n)| Some(container_row(&i.to_string(), n, LABEL)))
        .collect();
    let mut expected: Vec<(String, String)> =
        names.iter().enumerate().map(|(i, n)| (n.to_string(), i.to_string())).collect();
    expected.sort_by(|a, b| a.0.cmp(&b.0));
    let got: Vec<(String, String)> =
        Container::get_all(rows).into_iter().map(|c| (c.names, c.id)).collect();
    assert_eq!(got, expected);
}

#[test]
fn container_clone_is_equal_in_every_field() {
    let row = container_row("9", "n", LABEL);
    let copy = row.clone();
    assert_eq!(format!("{:?}", copy), format!("{:?}", row));
}

#[test]
fn config_path_is_the_output_without_quotes_and_space() {
    assert_eq!(
        Container::get_compose_config_file_path("'/srv/app/docker-compose.yml'\n"),
        Ok("/srv/app/docker-compose.yml".to_string())
    );
    assert_eq!(
        Container::get_compose_config_file_path("  /a/b.yml \t\n"),
        Ok("/a/b.yml".to_string())
    );
    assert_eq!(Container::get_compose_config_file_path("'/a'b'/c'"), Ok("/ab/c".to_string()));
    assert_eq!(Container::get_compose_config_file_path("' /x y '"), Ok("/x y".to_string()));
}

#[test]
fn config_path_is_missing_when_the_label_is_absent() {
    assert_eq!(Container::get_compose_config_file_path(""), Err(Failure::NoComposeFile));
    assert_eq!(Container::get_compose_config_file_path("''\n"), Err(Failure::NoComposeFile));
    assert_eq!(Container::get_compose_config_file_path("\n"), Err(Failure::NoComposeFile));
    assert_eq!(Container::get_compose_config_file_path(" ' ' "), Err(Failure::NoComposeFile));
}

#[test]
fn compose_dir_is_the_parent_of_the_config_file() {
    assert_eq!(
        Container::get_compose_dir("'/srv/app/docker-compose.yml'\n"),
        Ok("/srv/app".to_string())
    );
    assert_eq!(Container::get_compose_dir("'/compose.yml'"), Ok("".to_string()));
    assert_eq!(Container::get_compose_dir("'compose.yml'"), Ok("".to_string()));
    assert_eq!(Container::get_compose_dir("'/a/b/'"), Ok("/a/b".to_string()));
}

#[test]
fn compose_dir_is_missing_when_the_label_is_absent() {
    assert_eq!(Container::get_compose_dir("''\n"), Err(Failure::NoComposeFile));
    assert_eq!(Container::get_compose_dir(""), Err(Failure::NoComposeFile));
}

#[test]
fn parent_dir_agrees_with_split_and_join() {
    for path in ["", "/", "a", "/a", "a/", "/a/b", "a/b/c.yml", "//", "/a//b", "\u{e9}/\u{4e2d}/x"] {
        let pieces: Vec<String> = path.split("/").map(|p| p.to_string()).collect();
        let expected = (&pieces[0..pieces.len() - 1]).join("/");
        assert_eq!(parent_dir(path), expected);
    }
}
