pub mod access_laws;
pub mod archive;
pub mod archive_laws;
pub mod artifact_laws;
pub mod artifacts;
pub mod changes;
pub mod cleanup;
pub mod cleanup_laws;
pub mod cleanup_run_laws;
pub mod copy;
pub mod copy_dir_laws;
pub mod copy_laws;
pub mod copy_step_laws;
pub mod directory_laws;
pub mod disk;
pub mod disk_laws;
pub mod effect_laws;
pub mod entry_laws;
pub mod fallback;
pub mod fallback_laws;
pub mod install_laws;
pub mod install_step_laws;
pub mod manifest_laws;
pub mod old_file_laws;
pub mod old_files;
pub mod order;
pub mod order_laws;
pub mod path;
pub mod path_laws;
pub mod plan;
pub mod plan_laws;
pub mod reading_laws;
pub mod remove;
pub mod rename;
pub mod rename_laws;
pub mod run;
pub mod runtime;
pub mod session;
pub mod survey;
pub mod survey_laws;
pub mod survey_run_laws;
pub mod sweep;
pub mod sweep_laws;
pub mod text;
pub mod text_laws;
pub mod transaction;
pub mod transaction_id;
pub mod tree;
pub mod update_laws;
pub mod view_laws;
