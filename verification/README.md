# mdevctl (verified core)

A library for managing mediated devices (mdev): the layout of sysfs and of
the configuration directory, the model of a device and of a device type, the
JSON form in which a device's definition is stored, the text in which devices
are listed, and the decisions taken while devices are listed, looked up,
defined and created.

`src/` is verified with Verus. Functions that decide on what the file system
holds take what was read as plain values (for a listing, one record per
directory entry, each read kept with its outcome) and say in their contracts
exactly what they return for every such input.

- `text`: paths, trimming, integer parsing and formatting, the order of text.
- `device_uuid`: UUIDs and their hyphenated text (through the `uuid` crate).
- `json`: JSON values and their lookup; parsing and printing them is done
  by `serde_json`.
- `environment`: the directories of an installation, and its self-check.
- `mdev`, `definition`, `listing_text`: a device, its stored definition, its
  text and its attribute list.
- `creation`: sysfs data of a device, finding its parent, checks before
  creation.
- `device_type`, `supported_types`: device types and their listing.
- `defined`, `active`: listings of defined and of running devices.
- `lifecycle`: the steps of starting and stopping a device.
- `text_map`: maps keyed by text, kept in key order.

`app/` does the reading and writing: it gathers what the listing functions
take (file contents as text), gives the error type its `Display`, and
writes the files whose paths and contents the library decides.

Not included: running mdev devices may also be listed through callout
scripts, which report extra attributes of each device or fail the listing,
together with the lookup of those scripts (`find_script`). The module that
runs callout scripts is not available here, so neither the library nor
`app/` performs that step: the running-device listing shows what sysfs and
the stored definitions give.
