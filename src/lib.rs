//! Editing a package's dependency declarations: deciding how version
//! requirements move to newer releases, removing dependencies together with
//! the feature activations that named them, and laying out the change report.
pub mod manifest;
pub mod report;
pub mod requirement;
pub mod semver_specs;
pub mod upgrade;
