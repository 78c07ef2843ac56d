//! The ways a build fails.

use vstd::prelude::*;

verus! {

/// A file that could not be read or written.
#[derive(Debug)]
pub enum IOError {
    Read { path: String },
    Create { path: String },
}

/// A source that could not be rendered with a template.
#[derive(Debug)]
pub struct RenderError {
    pub path: String,
    pub template_name: String,
}

#[derive(Debug)]
pub enum BuildError {
    /// The input directory does not exist.
    InputMissing { path: String },
    /// The output path exists and is a plain file.
    OutputIsFile { path: String },
    /// A file could not be read or written.
    Io(IOError),
    /// A render asked for a template that is not registered.
    TemplateMissing { path: String, template_name: String },
    /// A template file is not a valid template.
    TemplateInvalid { template_name: String },
    /// Rendering failed.
    Render(RenderError),
    /// A template uses a form of partial call or inline partial that is not supported.
    TemplateUnsupported { template_name: String },
    /// Partial calls among the templates may come back to where they started.
    PartialCycle,
}

impl BuildError {
    pub open spec fn is_render_failure(&self, path: Seq<char>, template_name: Seq<char>) -> bool {
        match self {
            BuildError::Render(e) => e.path@ == path && e.template_name@ == template_name,
            _ => false,
        }
    }

    pub open spec fn is_template_missing(&self, path: Seq<char>, template_name: Seq<char>) -> bool {
        match self {
            BuildError::TemplateMissing { path: p, template_name: t } => p@ == path
                && t@ == template_name,
            _ => false,
        }
    }
}

} // verus!
