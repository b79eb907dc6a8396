# staged_update

Installing a staged update of an application as one transaction, with the procedures verified by Verus.

An update comes as a directory of new files. A full package replaces every top-level entry of the
application but its mutable data; an incremental package says in `changes.json` what was added,
modified and deleted. What an update replaces is moved aside first, and moved back where something fails.

The library never touches a disk. Each procedure is a state machine that hands out one request at a time
and goes on with the reply to it, so that its contract holds whatever the disk answers. `app/` carries the
requests out on files, archives and the asynchronous runtime.

| Modules | What they hold |
| --- | --- |
| `text`, `path`, `order` | texts, relative paths and their order |
| `survey`, `changes`, `plan` | what an update is made of: manifests and plans |
| `transaction`, `transaction_id` | installing a plan |
| `rename`, `copy`, `remove`, `sweep`, `cleanup` | the procedures that others are made of |
| `artifacts`, `old_files`, `fallback`, `archive` | the other commands |
| `runtime`, `session` | keeping updates and the runtime apart |
| `disk`, `tree` | requests and replies, directory trees |
| `path_laws`, `survey_laws`, `plan_laws`, `copy_laws`, `cleanup_laws`, `access_laws`, `effect_laws`, `copy_dir_laws`, `install_laws`, `directory_laws`, `update_laws` | what holds of them together |
