use vstd::prelude::*;

verus! {

/// What the user asked for: the project's name, its description, and where to
/// put it (the current directory when absent).
#[derive(Debug)]
pub struct AppArguments {
    project_name: String,
    details: String,
    output: Option<String>,
}

/// The view of an optional path.
pub open spec fn opt_view(o: Option<String>) -> Option<Seq<char>> {
    match o {
        Some(s) => Some(s@),
        None => None,
    }
}

pub fn clone_opt(o: &Option<String>) -> (r: Option<String>)
    ensures
        opt_view(r) == opt_view(*o),
{
    match o {
        Some(s) => Some(s.clone()),
        None => None,
    }
}

impl AppArguments {
    pub closed spec fn name(&self) -> Seq<char> {
        self.project_name@
    }

    pub closed spec fn description(&self) -> Seq<char> {
        self.details@
    }

    pub closed spec fn output_dir(&self) -> Option<Seq<char>> {
        opt_view(self.output)
    }

    pub fn details(&self) -> (r: &str)
        ensures
            r@ == self.description(),
    {
        self.details.as_str()
    }

    pub fn output(&self) -> (r: Option<String>)
        ensures
            opt_view(r) == self.output_dir(),
    {
        clone_opt(&self.output)
    }

    pub fn project_name(&self) -> (r: &str)
        ensures
            r@ == self.name(),
    {
        self.project_name.as_str()
    }

    pub fn new(project_name: &str, details: &str, output: Option<String>) -> (r: AppArguments)
        ensures
            r.name() == project_name@,
            r.description() == details@,
            r.output_dir() == opt_view(output),
    {
        AppArguments { project_name: project_name.to_owned(), details: details.to_owned(), output }
    }

    /// A copy with the same fields.
    pub fn duplicate(&self) -> (r: AppArguments)
        ensures
            r.name() == self.name(),
            r.description() == self.description(),
            r.output_dir() == self.output_dir(),
    {
        AppArguments {
            project_name: self.project_name.clone(),
            details: self.details.clone(),
            output: clone_opt(&self.output),
        }
    }
}

} // verus!
