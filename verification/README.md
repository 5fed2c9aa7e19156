# DuplicateFileDeletor

Finds duplicate files, plans which of them to delete, and deletes them when it is asked to.
A run only plans by default. A file is deleted only after it was compared, byte by byte, with
a file that is kept.

`src/` is a verified library. It decides; it does no input or output. `app/` is the program
around it: a window, a command line, and the reading, writing and deleting of files.

- `run`, `state`, `stages`, `exchange`: a run as a sequence of steps. Each step takes the
  reply to the last action and gives the next one.
- `promises`, `history`: what every run promises, whatever it is told.
- `success`: when a run comes to a result.
- `truth`, `faithful`, `again`, `saved`, `results`: what a run comes to that is told the truth:
  one file of each contents is kept, the plan that was reviewed is the plan that is applied, and
  checkpoints hold what was scanned.
- `plan`, `agree`, `rank`, `order`, `select`: the deletion plan and the orders behind it.
- `prefilter`, `hashing`, `scan`: which files are hashed, and how.
- `resume`, `table`: saved scan data, and the CSV tables of the reports.
- `outcome`: what came of the deletions.
- `config`, `form`, `dashboard`, `display`: the command line, the form, and what is shown.
- `paths`, `metadata`, `model`, `number`, `text`: the rest.

The window is drawn with `eframe`. `winit` is named in `Cargo.toml` only to turn on its `x11`
feature, which `eframe` needs on Linux.

## Reports

Each run writes into its output folder: `all_files.csv`, `kept_files.csv`,
`planned_deletions.csv`, `deleted_files.csv`, `failed_deletions.csv`, `summary.txt` and
`checkpoints/checkpoint_*.csv`. A later run can resume from them.
