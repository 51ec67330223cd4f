use vstd::prelude::*;

verus! {

/// The data directory: `KANBAN_DATA_DIR` when set; otherwise a `kanban`
/// folder under `LOCALAPPDATA`, else under `HOME`, else under `.`.
pub open spec fn data_dir_of(
    kanban_data_dir: Option<Seq<char>>,
    local_app_data: Option<Seq<char>>,
    home: Option<Seq<char>>,
) -> Seq<char> {
    match kanban_data_dir {
        Some(d) => d,
        None => {
            let base = match local_app_data {
                Some(b) => b,
                None => match home {
                    Some(h) => h,
                    None => "."@,
                },
            };
            base + "\\kanban"@
        },
    }
}

pub open spec fn opt_view(o: Option<String>) -> Option<Seq<char>> {
    match o {
        Some(s) => Some(s@),
        None => None,
    }
}

/// The data directory from the values of the environment variables
/// `KANBAN_DATA_DIR`, `LOCALAPPDATA` and `HOME` (`None` when unset).
pub fn data_dir(kanban_data_dir: Option<String>, local_app_data: Option<String>, home: Option<String>) -> (dir: String)
    ensures
        dir@ == data_dir_of(opt_view(kanban_data_dir), opt_view(local_app_data), opt_view(home)),
{
    match kanban_data_dir {
        Some(d) => d,
        None => {
            let base = match local_app_data {
                Some(b) => b,
                None => match home {
                    Some(h) => h,
                    None => String::from_str("."),
                },
            };
            base.concat("\\kanban")
        },
    }
}

/// The database file in the data directory.
pub open spec fn db_path_of(dir: Seq<char>) -> Seq<char> {
    dir + "\\kanban.db"@
}

/// The database file in the data directory.
pub fn db_path(dir: &str) -> (path: String)
    ensures
        path@ == db_path_of(dir@),
{
    String::from_str(dir).concat("\\kanban.db")
}

} // verus!
