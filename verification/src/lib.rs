//! The verified core of the Blender batch render helper: the files it reads
//! and writes (AWS credentials, environment variables, the render job list),
//! the commands it runs, and the checks of the tools it depends on.
pub mod aws_credentials;
pub mod commands;
pub mod credentials_laws;
pub mod env_mod;
pub mod error;
pub mod installers;
pub mod jobs;
pub mod loggers;
pub mod stacks;
pub mod string_map;
pub mod text;
