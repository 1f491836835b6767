# frontend

The logic of a browser front end for a home file server: a file browser with
uploads, a media viewer and video player, and a firmware (OTA) dashboard.

- `src/` is the verified library. Each module holds executable functions with
  `requires` / `ensures` contracts over mathematical models (`Seq`, `Set`,
  `int`), and public proof functions that state the library's laws:
  - `listing`, `naming`, `conflict`, `upload`, `selection`, `browser`: sorting,
    renaming, name conflicts, upload plans and chunking, selection and
    navigation in the file browser;
  - `player`, `subtitles`, `preview`, `ui`: video player state machines,
    subtitle tracks, text previews and widget states;
  - `projects`: the firmware dashboard (versions, links, reports);
  - `api`, `json`, `uri`, `display`, `text`, `number`: request building, JSON
    and URI encoding, number and date formatting, string helpers.
- `tests/` runs the library on concrete values.
- `app/` is the Leptos application around the library: components, browser
  APIs and HTTP calls. It hands the library plain values and renders what comes
  back.
