use foc_devnet::docker::logs::lowercase_status_is_dead;
use foc_devnet::docker::logs::{
    container_log_file_name, list_all_containers, list_foc_devnet_containers, log_capture_failure,
    post_start_status_log_content, remove_dead_foc_containers, status_is_dead, ContainerInfo,
};

fn info(name: &str, image: &str, status: &str) -> ContainerInfo {
    ContainerInfo { name: name.to_string(), image: image.to_string(), status: status.to_string() }
}

#[test]
fn docker_ps_output_is_parsed() {
    let output = " foc-a-lotus | foc-lotus:v1 | Up 3 minutes\r\nbroken line\nfoc-b|img|Exited (0) 2 hours ago|extra\n\n";
    let containers = list_all_containers(output);
    assert_eq!(containers.len(), 2);
    assert_eq!(containers[0].name, "foc-a-lotus");
    assert_eq!(containers[0].image, "foc-lotus:v1");
    assert_eq!(containers[0].status, "Up 3 minutes");
    assert_eq!(containers[1].name, "foc-b");
    assert_eq!(containers[1].image, "img");
    assert_eq!(containers[1].status, "Exited (0) 2 hours ago");
    assert!(list_all_containers("").is_empty());
    let empty_fields = list_all_containers("||");
    assert_eq!(empty_fields.len(), 1);
    assert_eq!(empty_fields[0].name, "");
}

#[test]
fn foc_devnet_containers_are_kept_in_order() {
    let all = vec![
        info("foc-a-lotus", "foc-lotus", "Up"),
        info("observer-postgres", "postgres:16", "Up"),
        info("foc-a-sp1-db", "postgres:16", "Up"),
        info("foc-a-curio", "foc-curio", "Up"),
    ];
    let kept = list_foc_devnet_containers(all, |c: &ContainerInfo| {
        c.image.starts_with("foc-") || c.name.ends_with("-db")
    });
    let names: Vec<&str> = kept.iter().map(|c| c.name.as_str()).collect();
    assert_eq!(names, vec!["foc-a-lotus", "foc-a-sp1-db", "foc-a-curio"]);
}

#[test]
fn dead_statuses() {
    assert!(status_is_dead("Exited (0) 5 seconds ago"));
    assert!(status_is_dead("DEAD"));
    assert!(status_is_dead("Created"));
    assert!(status_is_dead("Removal In Progress") == false);
    assert!(status_is_dead("Removing"));
    assert!(status_is_dead("Up 2 hours (Paused)"));
    assert!(!status_is_dead("Up 2 hours"));
    assert!(!status_is_dead("Restarting (1) 3 seconds ago"));
}

#[test]
fn dead_containers_are_selected_for_removal() {
    let all = vec![
        info("foc-a", "foc-lotus", "Up 1 minute"),
        info("foc-b", "foc-curio", "Exited (1) 1 minute ago"),
        info("foc-c", "foc-curio", "Created"),
    ];
    let dead = remove_dead_foc_containers(all);
    let names: Vec<&str> = dead.iter().map(|c| c.name.as_str()).collect();
    assert_eq!(names, vec!["foc-b", "foc-c"]);
}

#[test]
fn log_file_names_and_failure_text() {
    assert_eq!(
        container_log_file_name("foc-a-lotus", "foc-lotus:v1:x"),
        "foc-a-lotus.foc-lotus_v1_x.docker.log"
    );
    assert_eq!(container_log_file_name("c", "img"), "c.img.docker.log");
    assert_eq!(
        log_capture_failure("foc-a-lotus", "no such container"),
        "Failed to get logs for container 'foc-a-lotus': no such container\n"
    );
}

#[test]
fn post_start_status_log() {
    assert_eq!(post_start_status_log_content("all good\n", true, "ignored"), "all good\n");
    assert_eq!(
        post_start_status_log_content("partial", false, "error text"),
        "partial\n[status command failed]\nerror text"
    );
}

#[test]
fn lowercase_statuses() {
    assert!(lowercase_status_is_dead("exited (137) 1 second ago"));
    assert!(!lowercase_status_is_dead("Exited (137) 1 second ago"));
    assert!(lowercase_status_is_dead("up 1 hour (paused)"));
    assert!(!lowercase_status_is_dead("up 1 hour"));
}

#[test]
fn listing_reads_back_written_line() {
    let line = format!("{}|{}|{}", "foc-r-lotus", "foc-lotus:v2", "Up 5 minutes");
    let containers = list_all_containers(&line);
    assert_eq!(containers.len(), 1);
    assert_eq!(containers[0].name, "foc-r-lotus");
    assert_eq!(containers[0].image, "foc-lotus:v2");
    assert_eq!(containers[0].status, "Up 5 minutes");
}

#[test]
fn ascii_statuses_lowercase_letter_by_letter() {
    assert!(status_is_dead("EXITED"));
    assert!(status_is_dead("Paused"));
    assert!(!status_is_dead("Up About An Hour"));
}
