use vstd::prelude::*;
use vstd::string::StringExecFns;

verus! {

/// Builds the sqlite connection string for a database file path.
pub fn db_url(database_file: &String) -> (url: String)
    ensures
        url@ == "sqlite:"@ + database_file@,
{
    let mut url = String::from_str("sqlite:");
    url.append(database_file.as_str());
    url
}

} // verus!
