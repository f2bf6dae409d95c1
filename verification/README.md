# photo_uploader

A command-line tool that uploads a photo to S3 (or an S3-compatible store):
the photo is turned upright by its EXIF orientation, fitted into the
configured maximum size and encoded again (which drops its metadata), and
stored under a key that does not overwrite an existing object unless asked
to. The original can be uploaded alongside, with its EXIF data removed
except the orientation.

- `src/` is the library, written in Verus and verified:
  - `config` reads `config.ini` (an INI text with `[aws]` and `[defaults]`);
  - `imaging` is the image pipeline on top of the `image` and `kamadak-exif`
    crates;
  - `jpeg` removes the APP1 (EXIF) segments from a JPEG stream and puts
    back one that holds only the orientation;
  - `keys` builds object keys and content types;
  - `paths` handles file names and where the configuration is looked for;
  - `report` formats what the tool prints after an upload;
  - `text` holds the character-level helpers.
- `app/main.rs` is the command itself: arguments, files, the S3 client.
- `tests/` runs the library on concrete inputs.
