use crust::output::executable_name;

#[test]
fn the_file_name_without_directories_with_crust_extension() {
    assert_eq!(executable_name("src/main.cr"), "main.crust");
    assert_eq!(executable_name("main.cr"), "main.crust");
}

#[test]
fn every_cr_is_replaced() {
    assert_eq!(executable_name("a/b/c.cr.cr"), "c.crust.crust");
}

#[test]
fn a_name_without_cr_gets_crust_added() {
    assert_eq!(executable_name("prog"), "prog.crust");
    assert_eq!(executable_name("dir/notes.txt"), "notes.txt.crust");
    assert_eq!(executable_name("dir/"), ".crust");
    assert_eq!(executable_name(""), ".crust");
}

#[test]
fn a_name_that_would_not_end_in_crust_gets_it_added() {
    assert_eq!(executable_name("x.crate"), "x.crustate.crust");
    assert_eq!(executable_name("x.cr.txt"), "x.crust.txt.crust");
}

#[test]
fn the_output_never_is_the_input() {
    for name in ["prog", "a.cr", "b.crust", "c.txt", "d.cr.bak", ""] {
        let out = executable_name(name);
        assert_ne!(out, name);
        assert!(out.ends_with(".crust"));
    }
}
