# calendar_assets

Checks that the rendered images of calendars exist: for each calendar id it
builds the list of image URLs, requests each with a HEAD request, and prints
the ids of the calendars with a missing image.

- `src/` is the verified library: the URL lists of the preview and overlay
  images (`url`, `overlay::url`), the reading of arguments and input lines
  (`preview`, `overlay`, `handler`), the decisions of a job's URL checks
  (`url_handler`, `worker`, `*::worker`), and the collection of reported ids
  (`receiver`). Its contracts and laws are proved with Verus.
- `app/` is the program around it: the command line, files, HTTP requests,
  channels, tasks and the progress bar.
- `tests/` runs the library on concrete values.
