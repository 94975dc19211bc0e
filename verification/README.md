# syno_media_organizer

Organises photos and videos on a Synology NAS into dated folders from their
capture metadata (EXIF `DateTimeOriginal` for photos, the QuickTime `mvhd`
creation time for videos), falling back to dates encoded in WhatsApp, Android
camera and Facebook file names.

- `src/` is the verified library: date extraction from file contents and file
  names, destination naming and conflict resolution, configuration rules, the
  no-date cache and the decisions of a folder scan. Each public function states
  its result in its contract; the laws that tie functions together are public
  proof functions (`law_*`, `lemma_*`).
- `app/` is the service around it: command line, configuration file, logging,
  reading and moving files, writing EXIF, and the polling loop.
- `tests/` exercises the library on concrete values.
