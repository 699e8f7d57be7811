# recent_projects

The recent-projects picker and the agent page of an editor, written in Verus: what is listed, what
is selected, and what each action opens, renames, moves or deletes.

- `src/` is the verified library. It holds plain values only.
  - `model`, `path`, `text`, `lex`, `seqs`: the values and their vocabulary.
  - `delegate`: the state of the picker. `listing` lists the rows for a query. What holds of every
    listing is proved in `listing_laws`, `listing_coverage` (which projects appear) and
    `listing_order` (sections and folders keep their order).
  - `folder_edit`, `deletion`, `confirm`: creating and renaming folders, removing rows, opening
    projects. `folder_edit_laws` proves what giving up an edit undoes.
  - `rows`, `highlight`, `footer`: what is shown.
  - `picker`, `actions`: the modal, the popover and the application's actions.
  - `recents`, `open_folders`: the names of projects and folders.
  - `agent_page`: the history of threads beside the conversation.
- `tests/` runs the library.
- `app/` draws what the library decides, and reads windows and databases for it.
