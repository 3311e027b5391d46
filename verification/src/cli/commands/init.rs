//! The rules of `init`: the project name and the manifest it writes.
use vstd::prelude::*;
use crate::text::{concat, owned};

verus! {

/// The manifest `init` writes for a project name and description.
pub open spec fn init_manifest_spec(name: Seq<char>, description: Seq<char>) -> Seq<char> {
    "{\n  \"name\": \""@ + name + "\",\n  \"version\": \"0.0.1\",\n  \"description\": \""@ + description
        + r#"",
  "main": "index.js",
  "scripts": {
    "test": "echo \"Error: no test specified\" && exit 1"
  },
  "keywords": [],
  "author": "",
  "license": "MIT"
}
"#@
}

/// The manifest `init` writes for a project name and description.
pub fn init_manifest(name: &str, description: &str) -> (m: String)
    ensures
        m@ == init_manifest_spec(name@, description@),
{
    let mut m = concat("{\n  \"name\": \"", name);
    m.append("\",\n  \"version\": \"0.0.1\",\n  \"description\": \"");
    m.append(description);
    m.append(
        r#"",
  "main": "index.js",
  "scripts": {
    "test": "echo \"Error: no test specified\" && exit 1"
  },
  "keywords": [],
  "author": "",
  "license": "MIT"
}
"#,
    );
    m
}

/// The project name `init` uses for an answer (already trimmed): the
/// answer, or `my-project` when it is empty.
pub fn init_project_name(answer: &str) -> (n: String)
    ensures
        n@ == (if answer@.len() == 0 {
            "my-project"@
        } else {
            answer@
        }),
{
    if answer.is_empty() {
        owned("my-project")
    } else {
        owned(answer)
    }
}

} // verus!
